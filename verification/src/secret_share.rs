//! Dealer polynomials, Feldman commitments to them, and the plaintext and
//! encrypted secret shares that carry one polynomial evaluation from a
//! dealer to a recipient.
//!
//! The encrypted share format is fixed bit-exactly: with `K` the compressed
//! encoding of the Diffie–Hellman shared point, `s` and `r` the big-endian
//! sender and receiver indices, the symmetric key is
//! `SHA-256("enc" || K || s || r)`; the 32-byte ciphertext is the canonical
//! scalar encoding XORed with `SHA-256(key || 0x01)`; the authentication
//! tag is `SHA-256(key || 0x02 || ciphertext)`.

use vstd::prelude::*;

use crate::arith::lemma_mod_noop_small;
use crate::codec::bytes_equal;
use crate::codec::push_bytes;
use crate::codec::u32_be;
use crate::curve::group_order;
use crate::curve::point_dlog;
use crate::curve::point_dlog_seq;
use crate::curve::point_enc;
use crate::curve::qadd;
use crate::curve::qmul;
use crate::curve::qsub;
use crate::curve::scalar_enc;
use crate::curve::scalar_of;
use crate::curve::scalar_seq_of;
use crate::curve::scalar_to_bytes;
use crate::curve::scalar_from_bytes;
use crate::curve::scalar_zeroize;
use crate::curve::point_to_bytes;
use crate::curve::sha256;
use crate::curve::sha256_of;
use crate::curve::GroupElement;
use crate::curve::Scalar;
use crate::Error;
use crate::FrostResult;

verus! {

/// The value of the polynomial with the given coefficient residues at `x`,
/// modulo the group order.  The first coefficient is the constant term.
pub open spec fn poly_eval(coeffs: Seq<nat>, x: nat) -> nat
    decreases coeffs.len(),
{
    if coeffs.len() == 0 {
        0
    } else {
        qadd(coeffs.first(), qmul(x, poly_eval(coeffs.drop_first(), x)))
    }
}

/// Evaluating a polynomial of one coefficient, or of two, unfolds to the
/// familiar affine form.
proof fn lemma_poly_eval_linear(a: nat, b: nat, x: nat)
    requires
        a < group_order(),
        b < group_order(),
    ensures
        poly_eval(seq![a, b], x) == (((a + x * b) as int) % (group_order() as int)) as nat,
{
    let qi = group_order() as int;
    assert(seq![a, b].drop_first() =~= seq![b]);
    assert(seq![b].drop_first() =~= Seq::<nat>::empty());
    assert(poly_eval(Seq::<nat>::empty(), x) == 0);
    assert(qmul(x, 0) == 0);
    crate::arith::lemma_mod_noop_small(b);
    assert(poly_eval(seq![b], x) == qadd(b, 0));
    assert(qadd(b, 0) == b);
    assert(poly_eval(seq![a, b], x) == qadd(a, qmul(x, b)));
    vstd::arithmetic::div_mod::lemma_add_mod_noop(a as int, (x * b) as int, qi);
    crate::arith::lemma_mod_noop_small(a);
}

/// The two-point case of Lagrange interpolation, the largest instance of
/// the interpolation identity that this crate proves: over an index set
/// `{i, j}` of two distinct indices, weighting the evaluations of a
/// linear polynomial by the Lagrange coefficients recovers the constant
/// term.  The witness `w` inverts the product of the two denominators;
/// the scalar field supplies one for every pair of distinct indices, and
/// [`crate::utils::calculate_lagrange_coefficients`] computes
/// coefficients that satisfy the hypotheses.
#[verifier::rlimit(50)]
pub proof fn lemma_lagrange_pair(i: u32, j: u32, a: nat, b: nat, vi: nat, vj: nat, w: nat)
    requires
        i != j,
        a < group_order(),
        b < group_order(),
        crate::utils::is_lagrange_coefficient(i, seq![i, j], vi),
        crate::utils::is_lagrange_coefficient(j, seq![i, j], vj),
        qmul(qmul(qsub(j as nat, i as nat), qsub(i as nat, j as nat)), w) == 1,
    ensures
        qadd(
            qmul(vi, poly_eval(seq![a, b], i as nat)),
            qmul(vj, poly_eval(seq![a, b], j as nat)),
        ) == a,
{
    let qi = group_order() as int;
    let s = seq![i, j];
    let dji = qsub(j as nat, i as nat);
    let dij = qsub(i as nat, j as nat);
    let pi = poly_eval(seq![a, b], i as nat);
    let pj = poly_eval(seq![a, b], j as nat);
    let d = qmul(dji, dij);
    let ii = i as int;
    let jj = j as int;
    let aa = a as int;
    let bb = b as int;

    // The numerator and denominator of each coefficient, unfolded.
    let s1 = seq![i];
    assert(s.len() == 2 && s.last() == j);
    assert(s.drop_last() =~= s1);
    assert(s1.len() == 1 && s1.last() == i);
    assert(s1.drop_last() =~= Seq::<u32>::empty());
    crate::arith::lemma_mod_noop_small(j as nat);
    crate::arith::lemma_mod_noop_small(i as nat);
    assert(crate::utils::lagrange_numerator(i, Seq::<u32>::empty()) == 1);
    assert(crate::utils::lagrange_denominator(i, Seq::<u32>::empty()) == 1);
    assert(crate::utils::lagrange_numerator(j, Seq::<u32>::empty()) == 1);
    assert(crate::utils::lagrange_denominator(j, Seq::<u32>::empty()) == 1);
    assert(crate::utils::lagrange_numerator(i, s1) == 1);
    assert(crate::utils::lagrange_denominator(i, s1) == 1);
    assert(crate::utils::lagrange_numerator(j, s1) == qmul(1, i as nat));
    assert(crate::utils::lagrange_denominator(j, s1) == qmul(1, dij));
    assert(crate::utils::lagrange_numerator(i, s) == qmul(1, j as nat));
    assert(crate::utils::lagrange_denominator(i, s) == qmul(1, dji));
    assert(crate::utils::lagrange_numerator(j, s) == qmul(1, i as nat));
    assert(crate::utils::lagrange_denominator(j, s) == qmul(1, dij));
    assert(dji < group_order() && dij < group_order());
    crate::arith::lemma_qmul_one(j as nat);
    crate::arith::lemma_qmul_one(i as nat);
    crate::arith::lemma_qmul_one(dji);
    crate::arith::lemma_qmul_one(dij);
    assert(qmul(vi, dji) == j as nat);
    assert(qmul(vj, dij) == i as nat);

    // Multiply the weighted sum by the product of the denominators.
    let lhs = qadd(qmul(vi, pi), qmul(vj, pj));
    crate::arith::lemma_qmul_distrib(qmul(vi, pi), qmul(vj, pj), d);
    crate::arith::lemma_qmul_swap(vi, pi, dji, dij);
    crate::arith::lemma_qmul_swap(vj, pj, dij, dji);
    assert(qmul(qmul(vj, pj), d) == qmul(qmul(vj, pj), qmul(dij, dji))) by {
        crate::arith::lemma_qmul_comm(dji, dij);
    }
    assert(qmul(lhs, d) == qadd(
        qmul(j as nat, qmul(pi, dij)),
        qmul(i as nat, qmul(pj, dji)),
    ));

    // Every factor in integer form.
    lemma_poly_eval_linear(a, b, i as nat);
    lemma_poly_eval_linear(a, b, j as nat);
    assert(qmul(pi, dij) as int == ((aa + ii * bb) * (ii - jj)) % qi) by {
        vstd::arithmetic::div_mod::lemma_mul_mod_noop_general(aa + ii * bb, ii - jj, qi);
    }
    assert(qmul(j as nat, qmul(pi, dij)) as int == (jj * ((aa + ii * bb) * (ii - jj))) % qi) by {
        vstd::arithmetic::div_mod::lemma_mul_mod_noop_general(
            jj,
            (aa + ii * bb) * (ii - jj),
            qi,
        );
    }
    assert(qmul(pj, dji) as int == ((aa + jj * bb) * (jj - ii)) % qi) by {
        vstd::arithmetic::div_mod::lemma_mul_mod_noop_general(aa + jj * bb, jj - ii, qi);
    }
    assert(qmul(i as nat, qmul(pj, dji)) as int == (ii * ((aa + jj * bb) * (jj - ii))) % qi) by {
        vstd::arithmetic::div_mod::lemma_mul_mod_noop_general(
            ii,
            (aa + jj * bb) * (jj - ii),
            qi,
        );
    }
    assert(qmul(lhs, d) as int == (jj * ((aa + ii * bb) * (ii - jj)) + ii * ((aa + jj * bb) * (jj
        - ii))) % qi) by {
        vstd::arithmetic::div_mod::lemma_add_mod_noop(
            jj * ((aa + ii * bb) * (ii - jj)),
            ii * ((aa + jj * bb) * (jj - ii)),
            qi,
        );
    }

    // The multiplied-out identity is a plain ring identity.
    assert(jj * ((aa + ii * bb) * (ii - jj)) + ii * ((aa + jj * bb) * (jj - ii)) == aa * ((jj - ii)
        * (ii - jj))) by (nonlinear_arith);

    // The right-hand side, multiplied by the same product.
    assert(d as int == ((jj - ii) * (ii - jj)) % qi) by {
        vstd::arithmetic::div_mod::lemma_mul_mod_noop_general(jj - ii, ii - jj, qi);
    }
    assert(qmul(a, d) as int == (aa * ((jj - ii) * (ii - jj))) % qi) by {
        vstd::arithmetic::div_mod::lemma_mul_mod_noop_general(aa, (jj - ii) * (ii - jj), qi);
    }
    assert(qmul(lhs, d) == qmul(a, d));
    crate::arith::lemma_qmul_cancel(lhs, a, d, w);
}

/// Reducing every coefficient modulo the group order does not change the
/// polynomial's values.
pub proof fn lemma_poly_eval_congruent(cs1: Seq<nat>, cs2: Seq<nat>, x: nat)
    requires
        cs2.len() == cs1.len(),
        forall|i: int| 0 <= i < cs1.len() ==> cs2[i] == cs1[i] % group_order(),
    ensures
        poly_eval(cs2, x) == poly_eval(cs1, x),
    decreases cs1.len(),
{
    if cs1.len() > 0 {
        assert(forall|i: int|
            0 <= i < cs1.drop_first().len() ==> cs1.drop_first()[i] == cs1[i + 1]);
        assert(forall|i: int|
            0 <= i < cs2.drop_first().len() ==> cs2.drop_first()[i] == cs2[i + 1]);
        lemma_poly_eval_congruent(cs1.drop_first(), cs2.drop_first(), x);
        crate::arith::lemma_qadd_mod_noop(
            cs1.first(),
            qmul(x, poly_eval(cs1.drop_first(), x)) as nat,
        );
    }
}

/// A dealer's private polynomial coefficients `(a_0, ..., a_{t-1})`, with
/// `a_0` the dealer's contribution to the group secret.
pub struct Coefficients {
    /// The coefficients, constant term first.
    pub coefficients: Vec<Scalar>,
}

impl Coefficients {
    /// The residues of the coefficients.
    pub open spec fn model(self) -> Seq<nat> {
        scalar_seq_of(self.coefficients@)
    }

    /// The number of coefficients, which is the threshold `t`.
    pub fn len(&self) -> (r: usize)
        ensures
            r == self.model().len(),
    {
        self.coefficients.len()
    }

    /// Evaluates the polynomial at the participant index `x` by Horner's
    /// rule, from the highest-degree coefficient down.
    pub fn evaluate(&self, x: u32) -> (r: Scalar)
        ensures
            scalar_of(r) == poly_eval(self.model(), x as nat),
            scalar_of(r) < group_order(),
    {
        let x_field = Scalar::from_index(x);
        proof {
            lemma_mod_noop_small(x as nat);
        }
        let n = self.coefficients.len();
        let mut acc = Scalar::from_index(0);
        proof {
            lemma_mod_noop_small(0);
            assert(self.model().skip(n as int) =~= Seq::<nat>::empty());
        }
        let mut k: usize = n;
        while k > 0
            invariant
                n == self.coefficients@.len(),
                k <= n,
                scalar_of(x_field) == x as nat,
                scalar_of(acc) == poly_eval(self.model().skip(k as int), x as nat),
                scalar_of(acc) < group_order(),
            decreases k,
        {
            k = k - 1;
            let scaled = acc.times(&x_field);
            let acc2 = self.coefficients[k].plus(&scaled);
            proof {
                let m = self.model();
                assert(m.skip(k as int).first() == m[k as int]);
                assert(m.skip(k as int).drop_first() =~= m.skip(k as int + 1));
                crate::arith::lemma_qmul_comm(x as nat, scalar_of(acc));
                assert(scalar_of(acc2) == qadd(m[k as int], qmul(x as nat, poly_eval(
                    m.skip(k as int + 1),
                    x as nat,
                ))));
            }
            acc = acc2;
        }
        proof {
            assert(self.model().skip(0) =~= self.model());
        }
        acc
    }

    /// Overwrites every coefficient with zero.
    pub fn zeroize(&mut self)
        ensures
            final(self).model().len() == old(self).model().len(),
            forall|i: int| 0 <= i < final(self).model().len() ==> final(self).model()[i] == 0,
    {
        let n = self.coefficients.len();
        let mut k: usize = 0;
        while k < n
            invariant
                n == self.coefficients@.len(),
                k <= n,
                forall|i: int| 0 <= i < k ==> scalar_of(self.coefficients@[i]) == 0,
            decreases n - k,
        {
            let mut s = self.coefficients[k].clone();
            scalar_zeroize(&mut s);
            self.coefficients.set(k, s);
            k = k + 1;
        }
    }
}

/// A Feldman commitment `(φ_0, ..., φ_{t-1})` with `φ_k = a_k · B` to a
/// dealer's polynomial, tagged with the dealer's index.
pub struct VerifiableSecretSharingCommitment {
    /// The index of the dealer that committed to its polynomial.
    pub index: u32,
    /// The commitments to the coefficients, constant term first.
    pub points: Vec<GroupElement>,
}

impl VerifiableSecretSharingCommitment {
    /// The discrete logarithms of the committed points.
    pub open spec fn model(self) -> Seq<nat> {
        point_dlog_seq(self.points@)
    }

    /// The dealer's public-key contribution `φ_0`, when present.
    pub fn public_key(&self) -> (r: Option<&GroupElement>)
        ensures
            r is Some <==> self.points@.len() > 0,
            r matches Some(p) ==> point_dlog(*p) == point_dlog(self.points@[0]),
    {
        if self.points.len() > 0 {
            Some(&self.points[0])
        } else {
            None
        }
    }

    /// Evaluates the committed polynomial "in the exponent" at index `x`:
    /// the group element `Σ_k x^k · φ_k`, by Horner's rule.
    pub fn evaluate_at(&self, x: u32) -> (r: GroupElement)
        ensures
            point_dlog(r) == poly_eval(self.model(), x as nat),
            point_dlog(r) < group_order(),
    {
        let x_field = Scalar::from_index(x);
        proof {
            lemma_mod_noop_small(x as nat);
        }
        let n = self.points.len();
        let mut acc = GroupElement::identity();
        proof {
            assert(self.model().skip(n as int) =~= Seq::<nat>::empty());
        }
        let mut k: usize = n;
        while k > 0
            invariant
                n == self.points@.len(),
                k <= n,
                scalar_of(x_field) == x as nat,
                point_dlog(acc) == poly_eval(self.model().skip(k as int), x as nat),
                point_dlog(acc) < group_order(),
            decreases k,
        {
            k = k - 1;
            let scaled = acc.scaled(&x_field);
            let acc2 = self.points[k].plus(&scaled);
            proof {
                let m = self.model();
                assert(m.skip(k as int).first() == m[k as int]);
                assert(m.skip(k as int).drop_first() =~= m.skip(k as int + 1));
                crate::arith::lemma_qmul_comm(x as nat, point_dlog(acc));
                assert(point_dlog(acc2) == qadd(m[k as int], qmul(x as nat, poly_eval(
                    m.skip(k as int + 1),
                    x as nat,
                ))));
            }
            acc = acc2;
        }
        proof {
            assert(self.model().skip(0) =~= self.model());
        }
        acc
    }
}

/// The concatenated canonical encodings of points with the given discrete
/// logarithms.
pub open spec fn points_enc(ds: Seq<nat>) -> Seq<u8>
    decreases ds.len(),
{
    if ds.len() == 0 {
        Seq::empty()
    } else {
        points_enc(ds.drop_last()) + point_enc(ds.last())
    }
}

impl VerifiableSecretSharingCommitment {
    /// The canonical encoding: the dealer index, a length prefix, and the
    /// committed points.
    pub open spec fn enc(self) -> Seq<u8> {
        u32_be(self.index) + crate::codec::u64_le(self.points@.len() as u64) + points_enc(
            self.model(),
        )
    }

    /// Serializes this commitment.
    pub fn to_bytes(&self) -> (r: FrostResult<Vec<u8>>)
        ensures
            r is Ok,
            r matches Ok(b) ==> b@ == self.enc(),
    {
        let mut bytes: Vec<u8> = Vec::new();
        crate::codec::push_u32_be(&mut bytes, self.index);
        crate::codec::push_u64_le(&mut bytes, self.points.len() as u64);
        let n = self.points.len();
        let mut i: usize = 0;
        while i < n
            invariant
                n == self.points@.len(),
                i <= n,
                bytes@ == u32_be(self.index) + crate::codec::u64_le(n as u64) + points_enc(
                    self.model().take(i as int),
                ),
            decreases n - i,
        {
            let p_bytes = point_to_bytes(&self.points[i]);
            push_bytes(&mut bytes, p_bytes.as_slice());
            proof {
                assert(self.model().take(i as int + 1).drop_last() =~= self.model().take(i as int));
                assert(bytes@ =~= u32_be(self.index) + crate::codec::u64_le(n as u64) + points_enc(
                    self.model().take(i as int + 1),
                ));
            }
            i = i + 1;
        }
        proof {
            assert(self.model().take(n as int) =~= self.model());
        }
        Ok(bytes)
    }

    /// Parses a commitment from the encoding of `to_bytes`, accepting only
    /// canonical point encodings.
    pub fn from_bytes(bytes: &[u8]) -> (r: FrostResult<VerifiableSecretSharingCommitment>)
        ensures
            r matches Ok(c) ==> c.enc() == bytes@,
            r matches Err(e) ==> e is DeserializationError,
    {
        let total = bytes.len();
        if total < 12 {
            return Err(Error::DeserializationError);
        }
        let index = crate::codec::read_u32_be(bytes, 0);
        let count = crate::codec::read_u64_le(bytes, 4);
        let mut points: Vec<GroupElement> = Vec::new();
        let mut pos: usize = 12;
        let mut taken: u64 = 0;
        while taken < count
            invariant
                total == bytes@.len(),
                12 <= pos <= total,
                taken <= count,
                u32_be(index) == bytes@.subrange(0, 4),
                crate::codec::u64_le(count) == bytes@.subrange(4, 12),
                points@.len() == taken,
                bytes@.subrange(0, pos as int) == u32_be(index) + crate::codec::u64_le(count)
                    + points_enc(point_dlog_seq(points@)),
            decreases count - taken,
        {
            if total - pos < 33 {
                return Err(Error::DeserializationError);
            }
            let p_slice = vstd::slice::slice_subrange(bytes, pos, pos + 33);
            let p = match crate::keys::decode_canonical_point(p_slice) {
                Some(p) => p,
                None => {
                    return Err(Error::DeserializationError);
                },
            };
            let ghost prev = points@;
            points.push(p);
            proof {
                let ds = point_dlog_seq(points@);
                assert(points@.drop_last() =~= prev);
                assert(ds.drop_last() =~= point_dlog_seq(prev));
                assert(ds.last() == point_dlog(p));
                assert(points_enc(ds) == points_enc(point_dlog_seq(prev)) + point_enc(
                    point_dlog(p),
                ));
                assert(bytes@.subrange(0, pos as int + 33) =~= bytes@.subrange(0, pos as int)
                    + bytes@.subrange(pos as int, pos as int + 33));
                assert(bytes@.subrange(0, pos as int + 33) =~= u32_be(index) + crate::codec::u64_le(
                    count,
                ) + points_enc(ds));
            }
            pos = pos + 33;
            taken = taken + 1;
        }
        if pos != total {
            return Err(Error::DeserializationError);
        }
        let r = VerifiableSecretSharingCommitment { index, points };
        proof {
            assert(bytes@.subrange(0, total as int) =~= bytes@);
            assert(r.points@.len() as u64 == count);
        }
        Ok(r)
    }
}

impl Clone for VerifiableSecretSharingCommitment {
    fn clone(&self) -> (r: VerifiableSecretSharingCommitment)
        ensures
            r.index == self.index,
            r.model() == self.model(),
    {
        let mut points: Vec<GroupElement> = Vec::new();
        let n = self.points.len();
        let mut k: usize = 0;
        while k < n
            invariant
                n == self.points@.len(),
                k <= n,
                points@.len() == k,
                forall|i: int| 0 <= i < k ==> point_dlog(points@[i]) == point_dlog(self.points@[i]),
            decreases n - k,
        {
            points.push(self.points[k].clone());
            k = k + 1;
        }
        let r = VerifiableSecretSharingCommitment { index: self.index, points };
        proof {
            assert(r.model() =~= self.model());
        }
        r
    }
}

/// One plaintext evaluation `f_j(i)` of dealer `j`'s polynomial, destined
/// for recipient `i`.
pub struct SecretShare {
    /// The dealer that produced the evaluation.
    pub sender_index: u32,
    /// The recipient the evaluation is for.
    pub receiver_index: u32,
    /// The evaluation itself.
    pub polynomial_evaluation: Scalar,
}

impl SecretShare {
    /// The residue of the carried evaluation.
    pub open spec fn value(self) -> nat {
        scalar_of(self.polynomial_evaluation)
    }

    /// Evaluates `coefficients` at `receiver_index` on behalf of
    /// `sender_index`.
    pub fn generate(
        coefficients: &Coefficients,
        sender_index: u32,
        receiver_index: u32,
    ) -> (r: SecretShare)
        ensures
            r.sender_index == sender_index,
            r.receiver_index == receiver_index,
            r.value() == poly_eval(coefficients.model(), receiver_index as nat),
            r.value() < group_order(),
    {
        let polynomial_evaluation = coefficients.evaluate(receiver_index);
        SecretShare { sender_index, receiver_index, polynomial_evaluation }
    }

    /// The Feldman check: accepts exactly when `σ · B = Σ_k i^k · φ_k`,
    /// where `i` is the receiver index and `φ` the dealer's commitment.
    pub fn verify(&self, commitment: &VerifiableSecretSharingCommitment) -> (r: FrostResult<()>)
        ensures
            r is Ok <==> self.value() % group_order() == poly_eval(
                commitment.model(),
                self.receiver_index as nat,
            ),
            r matches Err(e) ==> e is InvalidShare,
    {
        let lhs = GroupElement::basepoint_mul(&self.polynomial_evaluation);
        let rhs = commitment.evaluate_at(self.receiver_index);
        if crate::curve::point_eq(&lhs, &rhs) {
            Ok(())
        } else {
            Err(Error::InvalidShare)
        }
    }

    /// Overwrites the carried evaluation with zero.
    pub fn zeroize(&mut self)
        ensures
            final(self).value() == 0,
            final(self).sender_index == old(self).sender_index,
            final(self).receiver_index == old(self).receiver_index,
    {
        scalar_zeroize(&mut self.polynomial_evaluation);
    }
}

/// The symmetric key for the share sent from `s` to `r` over the
/// Diffie–Hellman shared point with discrete logarithm `d`.
pub open spec fn share_key(d: nat, s: u32, r: u32) -> Seq<u8> {
    sha256_of(seq![101u8, 110u8, 99u8] + point_enc(d) + u32_be(s) + u32_be(r))
}

/// The 32-byte XOR mask derived from the symmetric key.
pub open spec fn share_mask(d: nat, s: u32, r: u32) -> Seq<u8> {
    sha256_of(share_key(d, s, r) + seq![1u8])
}

/// The authentication tag over a ciphertext under the symmetric key.
pub open spec fn share_tag(d: nat, s: u32, r: u32, ct: Seq<u8>) -> Seq<u8> {
    sha256_of(share_key(d, s, r) + seq![2u8] + ct)
}

/// The bytewise XOR of two equal-length byte strings.
pub open spec fn xor_seq(a: Seq<u8>, b: Seq<u8>) -> Seq<u8> {
    Seq::new(a.len(), |i: int| a[i] ^ b[i])
}

/// Masking twice with the same bytes restores the plaintext: together with
/// the contracts of [`encrypt_share`] and [`decrypt_share`], this gives
/// that a share encrypted for a recipient decrypts back to the same
/// evaluation under the same shared point.
pub proof fn lemma_xor_involution(a: Seq<u8>, m: Seq<u8>)
    requires
        a.len() == m.len(),
    ensures
        xor_seq(xor_seq(a, m), m) == a,
{
    let x = xor_seq(xor_seq(a, m), m);
    assert forall|i: int| 0 <= i < a.len() implies x[i] == a[i] by {
        let ai = a[i];
        let mi = m[i];
        assert((ai ^ mi) ^ mi == ai) by (bit_vector);
    }
    assert(x =~= a);
}

/// Both ends of a Diffie–Hellman exchange derive the same shared secret:
/// scaling the peer's public point by the own private scalar gives the
/// same discrete logarithm on either side.
pub proof fn lemma_shared_secret_symmetric(
    a: Scalar,
    b: Scalar,
    pa: GroupElement,
    pb: GroupElement,
)
    requires
        point_dlog(pa) == scalar_of(a) % group_order(),
        point_dlog(pb) == scalar_of(b) % group_order(),
    ensures
        qmul(point_dlog(pb), scalar_of(a)) == qmul(point_dlog(pa), scalar_of(b)),
{
    crate::arith::lemma_qmul_mod_noop(scalar_of(b), scalar_of(a));
    crate::arith::lemma_qmul_mod_noop(scalar_of(a), scalar_of(b));
    crate::arith::lemma_qmul_comm(scalar_of(b), scalar_of(a));
}

/// One encrypted polynomial evaluation in transit from a dealer to a
/// recipient.
pub struct EncryptedSecretShare {
    /// The dealer that produced the evaluation.
    pub sender_index: u32,
    /// The recipient the evaluation is for.
    pub receiver_index: u32,
    /// The masked canonical encoding of the evaluation.
    pub encrypted_polynomial_evaluation: Vec<u8>,
    /// The authentication tag over the ciphertext.
    pub tag: Vec<u8>,
}

impl EncryptedSecretShare {
    /// The canonical encoding: both indices, then the length-prefixed
    /// ciphertext and tag.
    pub open spec fn enc(self) -> Seq<u8> {
        u32_be(self.sender_index) + u32_be(self.receiver_index) + crate::codec::u64_le(
            self.encrypted_polynomial_evaluation@.len() as u64,
        ) + self.encrypted_polynomial_evaluation@ + crate::codec::u64_le(self.tag@.len() as u64)
            + self.tag@
    }

    /// Serializes this encrypted share.
    pub fn to_bytes(&self) -> (r: FrostResult<Vec<u8>>)
        ensures
            r is Ok,
            r matches Ok(b) ==> b@ == self.enc(),
    {
        let mut bytes: Vec<u8> = Vec::new();
        crate::codec::push_u32_be(&mut bytes, self.sender_index);
        crate::codec::push_u32_be(&mut bytes, self.receiver_index);
        crate::codec::push_u64_le(&mut bytes, self.encrypted_polynomial_evaluation.len() as u64);
        push_bytes(&mut bytes, self.encrypted_polynomial_evaluation.as_slice());
        crate::codec::push_u64_le(&mut bytes, self.tag.len() as u64);
        push_bytes(&mut bytes, self.tag.as_slice());
        proof {
            assert(bytes@ =~= self.enc());
        }
        Ok(bytes)
    }

    /// Parses an encrypted share from the encoding of `to_bytes`.
    pub fn from_bytes(bytes: &[u8]) -> (r: FrostResult<EncryptedSecretShare>)
        ensures
            r matches Ok(e) ==> e.enc() == bytes@,
            r matches Err(e) ==> e is DeserializationError,
    {
        let total = bytes.len();
        if total < 24 {
            return Err(Error::DeserializationError);
        }
        let sender_index = crate::codec::read_u32_be(bytes, 0);
        let receiver_index = crate::codec::read_u32_be(bytes, 4);
        let ct_len = crate::codec::read_u64_le(bytes, 8);
        if ct_len > (total - 24) as u64 {
            return Err(Error::DeserializationError);
        }
        let ct_end = 16 + (ct_len as usize);
        let mut ct: Vec<u8> = Vec::new();
        push_bytes(&mut ct, vstd::slice::slice_subrange(bytes, 16, ct_end));
        if total - ct_end < 8 {
            return Err(Error::DeserializationError);
        }
        let tag_len = crate::codec::read_u64_le(bytes, ct_end);
        if tag_len != (total - ct_end - 8) as u64 {
            return Err(Error::DeserializationError);
        }
        let mut tag: Vec<u8> = Vec::new();
        push_bytes(&mut tag, vstd::slice::slice_subrange(bytes, ct_end + 8, total));
        let r = EncryptedSecretShare {
            sender_index,
            receiver_index,
            encrypted_polynomial_evaluation: ct,
            tag,
        };
        proof {
            assert(r.enc() =~= bytes@);
        }
        Ok(r)
    }
}

impl Clone for EncryptedSecretShare {
    fn clone(&self) -> (r: EncryptedSecretShare)
        ensures
            r.sender_index == self.sender_index,
            r.receiver_index == self.receiver_index,
            r.encrypted_polynomial_evaluation@ == self.encrypted_polynomial_evaluation@,
            r.tag@ == self.tag@,
    {
        let mut ct: Vec<u8> = Vec::new();
        push_bytes(&mut ct, self.encrypted_polynomial_evaluation.as_slice());
        let mut tag: Vec<u8> = Vec::new();
        push_bytes(&mut tag, self.tag.as_slice());
        proof {
            assert(Seq::<u8>::empty() + self.encrypted_polynomial_evaluation@
                =~= self.encrypted_polynomial_evaluation@);
            assert(Seq::<u8>::empty() + self.tag@ =~= self.tag@);
        }
        EncryptedSecretShare {
            sender_index: self.sender_index,
            receiver_index: self.receiver_index,
            encrypted_polynomial_evaluation: ct,
            tag,
        }
    }
}

/// XORs two equal-length byte strings.
fn xor_bytes(a: &[u8], b: &[u8]) -> (r: Vec<u8>)
    requires
        a@.len() == b@.len(),
    ensures
        r@ == xor_seq(a@, b@),
{
    let n = a.len();
    let mut out: Vec<u8> = Vec::new();
    let mut i: usize = 0;
    while i < n
        invariant
            n == a@.len() && n == b@.len(),
            i <= n,
            out@.len() == i,
            forall|j: int| 0 <= j < i ==> out@[j] == (a@[j] ^ b@[j]),
        decreases n - i,
    {
        let x = *vstd::slice::slice_index_get(a, i) ^ *vstd::slice::slice_index_get(b, i);
        out.push(x);
        i = i + 1;
    }
    proof {
        assert(out@ =~= xor_seq(a@, b@));
    }
    out
}

/// Computes the symmetric key bytes for `(shared, sender, receiver)`.
fn derive_share_key(shared: &GroupElement, sender: u32, receiver: u32) -> (r: Vec<u8>)
    ensures
        r@ == share_key(point_dlog(*shared), sender, receiver),
        r@.len() == 32,
{
    let mut data: Vec<u8> = Vec::new();
    data.push(101u8);
    data.push(110u8);
    data.push(99u8);
    let point_bytes = point_to_bytes(shared);
    push_bytes(&mut data, point_bytes.as_slice());
    crate::codec::push_u32_be(&mut data, sender);
    crate::codec::push_u32_be(&mut data, receiver);
    proof {
        assert(data@ =~= seq![101u8, 110u8, 99u8] + point_enc(point_dlog(*shared)) + u32_be(sender)
            + u32_be(receiver));
    }
    sha256(data.as_slice())
}

/// Encrypts `share` under the Diffie–Hellman shared point `shared`.
pub fn encrypt_share(share: &SecretShare, shared: &GroupElement) -> (r: EncryptedSecretShare)
    ensures
        r.sender_index == share.sender_index,
        r.receiver_index == share.receiver_index,
        r.encrypted_polynomial_evaluation@ == xor_seq(
            scalar_enc(share.value()),
            share_mask(point_dlog(*shared), share.sender_index, share.receiver_index),
        ),
        r.encrypted_polynomial_evaluation@.len() == 32,
        r.tag@ == share_tag(
            point_dlog(*shared),
            share.sender_index,
            share.receiver_index,
            r.encrypted_polynomial_evaluation@,
        ),
{
    let key = derive_share_key(shared, share.sender_index, share.receiver_index);
    let mut mask_input = key.clone();
    mask_input.push(1u8);
    let mask = sha256(mask_input.as_slice());
    let plain = scalar_to_bytes(&share.polynomial_evaluation);
    let ciphertext = xor_bytes(plain.as_slice(), mask.as_slice());
    let mut tag_input = key.clone();
    tag_input.push(2u8);
    push_bytes(&mut tag_input, ciphertext.as_slice());
    let tag = sha256(tag_input.as_slice());
    proof {
        let d = point_dlog(*shared);
        assert(key@.push(1u8) =~= share_key(d, share.sender_index, share.receiver_index)
            + seq![1u8]);
        assert(key@.push(2u8) + ciphertext@ =~= share_key(d, share.sender_index,
            share.receiver_index) + seq![2u8] + ciphertext@);
    }
    EncryptedSecretShare {
        sender_index: share.sender_index,
        receiver_index: share.receiver_index,
        encrypted_polynomial_evaluation: ciphertext,
        tag,
    }
}

/// Decrypts an encrypted share with the Diffie–Hellman shared point
/// `shared`, failing with `DecryptionError` when the tag does not
/// authenticate or the plaintext is not a canonical scalar.
pub fn decrypt_share(enc: &EncryptedSecretShare, shared: &GroupElement) -> (r: FrostResult<
    SecretShare,
>)
    ensures
        r matches Ok(s) ==> s.sender_index == enc.sender_index && s.receiver_index
            == enc.receiver_index && s.value() < group_order() && scalar_enc(s.value()) == xor_seq(
            enc.encrypted_polynomial_evaluation@,
            share_mask(point_dlog(*shared), enc.sender_index, enc.receiver_index),
        ),
        r is Ok ==> enc.tag@ == share_tag(
            point_dlog(*shared),
            enc.sender_index,
            enc.receiver_index,
            enc.encrypted_polynomial_evaluation@,
        ),
        forall|v: nat|
            v < group_order() && enc.encrypted_polynomial_evaluation@.len() == 32 && enc.tag@
                == share_tag(
                point_dlog(*shared),
                enc.sender_index,
                enc.receiver_index,
                enc.encrypted_polynomial_evaluation@,
            ) && scalar_enc(v) == xor_seq(
                enc.encrypted_polynomial_evaluation@,
                share_mask(point_dlog(*shared), enc.sender_index, enc.receiver_index),
            ) ==> r is Ok && r.unwrap().value() == v,
        r matches Err(e) ==> e is DecryptionError,
{
    let key = derive_share_key(shared, enc.sender_index, enc.receiver_index);
    let mut tag_input = key.clone();
    tag_input.push(2u8);
    push_bytes(&mut tag_input, enc.encrypted_polynomial_evaluation.as_slice());
    let expected_tag = sha256(tag_input.as_slice());
    proof {
        let d = point_dlog(*shared);
        assert(key@.push(2u8) + enc.encrypted_polynomial_evaluation@ =~= share_key(d,
            enc.sender_index, enc.receiver_index) + seq![2u8]
            + enc.encrypted_polynomial_evaluation@);
    }
    if !bytes_equal(expected_tag.as_slice(), enc.tag.as_slice()) {
        return Err(Error::DecryptionError);
    }
    if enc.encrypted_polynomial_evaluation.len() != 32 {
        return Err(Error::DecryptionError);
    }
    let mut mask_input = key.clone();
    mask_input.push(1u8);
    let mask = sha256(mask_input.as_slice());
    proof {
        let d = point_dlog(*shared);
        assert(key@.push(1u8) =~= share_key(d, enc.sender_index, enc.receiver_index) + seq![1u8]);
    }
    let plain = xor_bytes(enc.encrypted_polynomial_evaluation.as_slice(), mask.as_slice());
    match scalar_from_bytes(plain.as_slice()) {
        Some(polynomial_evaluation) => Ok(
            SecretShare {
                sender_index: enc.sender_index,
                receiver_index: enc.receiver_index,
                polynomial_evaluation,
            },
        ),
        None => Err(Error::DecryptionError),
    }
}

} // verus!
