//! The one-round signing core: binding factors, the aggregated group
//! commitment, partial signatures from precomputed nonce commitments, and
//! their aggregation into a Schnorr signature on the group key.

use vstd::prelude::*;

use crate::arith::lemma_mod_noop_small;
use crate::codec::push_bytes;
use crate::codec::push_u32_be;
use crate::codec::push_u64_le;
use crate::codec::u32_be;
use crate::codec::u64_le;
use crate::curve::context_string;
use crate::curve::group_order;
use crate::curve::hash_to_scalar;
use crate::curve::hash_to_scalar_of;
use crate::curve::point_dlog;
use crate::curve::point_enc;
use crate::curve::point_to_bytes;
use crate::curve::qadd;
use crate::curve::qmul;
use crate::curve::scalar_of;
use crate::curve::spec_context_string;
use crate::curve::GroupElement;
use crate::curve::Scalar;
use crate::keys::GroupKey;
use crate::keys::IndividualSigningKey;
use crate::precomputation::CommitmentShare;
use crate::utils::calculate_lagrange_coefficients;
use crate::utils::lagrange_coefficient_spec;
use crate::utils::occurrences;
use crate::Error;
use crate::FrostResult;

verus! {

/// One signer's published nonce commitments `(D_j, E_j)` for a session.
pub struct SignerNonceCommitment {
    /// The signer's participant index.
    pub index: u32,
    /// The hiding commitment `D_j`.
    pub hiding: GroupElement,
    /// The binding commitment `E_j`.
    pub binding: GroupElement,
}

impl Clone for SignerNonceCommitment {
    fn clone(&self) -> (r: SignerNonceCommitment)
        ensures
            r.index == self.index,
            point_dlog(r.hiding) == point_dlog(self.hiding),
            point_dlog(r.binding) == point_dlog(self.binding),
    {
        SignerNonceCommitment {
            index: self.index,
            hiding: self.hiding.clone(),
            binding: self.binding.clone(),
        }
    }
}

/// The canonical encoding of a signer set: a length prefix followed by
/// each signer's index and commitments.
pub open spec fn signers_enc(s: Seq<SignerNonceCommitment>) -> Seq<u8>
    decreases s.len(),
{
    if s.len() == 0 {
        Seq::empty()
    } else {
        signers_enc(s.drop_last()) + u32_be(s.last().index) + point_enc(point_dlog(s.last().hiding))
            + point_enc(point_dlog(s.last().binding))
    }
}

/// The domain-separation string for binding factors: the context followed
/// by the ASCII text `rho`.
pub open spec fn rho_context() -> Seq<u8> {
    spec_context_string() + seq![114u8, 104u8, 111u8]
}

/// The domain-separation string for challenges: the context followed by
/// the ASCII text `chal`.
pub open spec fn chal_context() -> Seq<u8> {
    spec_context_string() + seq![99u8, 104u8, 97u8, 108u8]
}

/// The binding factor of signer `j` for a message and signer set.
pub open spec fn binding_factor_of(j: u32, message: Seq<u8>, signers: Seq<SignerNonceCommitment>,
) -> nat {
    hash_to_scalar_of(
        rho_context(),
        u32_be(j) + u64_le(signers.len() as u64) + message + signers_enc(signers),
    )
}

/// The running sum of `D_j + ρ_j · E_j` over a prefix `s` of the signer
/// set, with every binding factor taken over the full set.
pub open spec fn group_commitment_sum(
    message: Seq<u8>,
    full: Seq<SignerNonceCommitment>,
    s: Seq<SignerNonceCommitment>,
) -> nat
    decreases s.len(),
{
    if s.len() == 0 {
        0
    } else {
        qadd(
            group_commitment_sum(message, full, s.drop_last()),
            qadd(
                point_dlog(s.last().hiding),
                qmul(
                    point_dlog(s.last().binding),
                    binding_factor_of(s.last().index, message, full),
                ),
            ),
        )
    }
}

/// The discrete logarithm of the aggregated group commitment
/// `R = Σ_j (D_j + ρ_j · E_j)` for a message and signer set.
pub open spec fn group_commitment_of(message: Seq<u8>, signers: Seq<SignerNonceCommitment>) -> nat {
    group_commitment_sum(message, signers, signers)
}

/// The challenge scalar `c = H(ctx ∥ "chal", R ∥ Y ∥ m)`.
pub open spec fn challenge_of(r_dlog: nat, group_key_dlog: nat, message: Seq<u8>) -> nat {
    hash_to_scalar_of(chal_context(), point_enc(r_dlog) + point_enc(group_key_dlog) + message)
}

/// One signer's contribution `z_i` to a threshold signature.
pub struct PartialThresholdSignature {
    /// The signer's participant index.
    pub index: u32,
    /// The partial response `z_i = d_i + ρ_i · e_i + λ_i · s_i · c`.
    pub z: Scalar,
}

/// A complete Schnorr signature `(R, z)` on a message under the group key.
pub struct ThresholdSignature {
    /// The aggregated group commitment `R`.
    pub group_commitment: GroupElement,
    /// The aggregated response `z = Σ_i z_i`.
    pub z: Scalar,
}

/// The indices named by a signer set.
pub open spec fn signer_indices(s: Seq<SignerNonceCommitment>) -> Seq<u32> {
    s.map_values(|c: SignerNonceCommitment| c.index)
}

/// Builds the byte encoding of a signer set.
fn encode_signers(signers: &[SignerNonceCommitment]) -> (r: Vec<u8>)
    ensures
        r@ == signers_enc(signers@),
{
    let n = signers.len();
    let mut out: Vec<u8> = Vec::new();
    let mut i: usize = 0;
    while i < n
        invariant
            n == signers@.len(),
            i <= n,
            out@ == signers_enc(signers@.take(i as int)),
        decreases n - i,
    {
        let s = vstd::slice::slice_index_get(signers, i);
        push_u32_be(&mut out, s.index);
        let d_bytes = point_to_bytes(&s.hiding);
        push_bytes(&mut out, d_bytes.as_slice());
        let e_bytes = point_to_bytes(&s.binding);
        push_bytes(&mut out, e_bytes.as_slice());
        proof {
            assert(signers@.take(i as int + 1).drop_last() =~= signers@.take(i as int));
            assert(out@ =~= signers_enc(signers@.take(i as int + 1)));
        }
        i = i + 1;
    }
    proof {
        assert(signers@.take(n as int) =~= signers@);
    }
    out
}

/// Computes the binding factor `ρ_j` of signer `j`.
fn binding_factor(j: u32, message: &[u8], signers: &[SignerNonceCommitment]) -> (r: Scalar)
    ensures
        scalar_of(r) == binding_factor_of(j, message@, signers@),
        scalar_of(r) < group_order(),
{
    let mut ctx = context_string();
    ctx.push(114u8);
    ctx.push(104u8);
    ctx.push(111u8);
    let mut msg: Vec<u8> = Vec::new();
    push_u32_be(&mut msg, j);
    push_u64_le(&mut msg, signers.len() as u64);
    push_bytes(&mut msg, message);
    let enc = encode_signers(signers);
    push_bytes(&mut msg, enc.as_slice());
    proof {
        assert(ctx@ =~= rho_context());
        assert(msg@ =~= u32_be(j) + u64_le(signers@.len() as u64) + message@ + signers_enc(
            signers@,
        ));
    }
    hash_to_scalar(ctx.as_slice(), msg.as_slice())
}

/// Computes the aggregated group commitment `R` for a message and signer
/// set.
pub fn compute_group_commitment(message: &[u8], signers: &[SignerNonceCommitment]) -> (r:
    GroupElement)
    ensures
        point_dlog(r) == group_commitment_of(message@, signers@),
        point_dlog(r) < group_order(),
{
    let n = signers.len();
    let mut acc = GroupElement::identity();
    let mut i: usize = 0;
    while i < n
        invariant
            n == signers@.len(),
            i <= n,
            point_dlog(acc) == group_commitment_sum(message@, signers@, signers@.take(i as int)),
            point_dlog(acc) < group_order(),
        decreases n - i,
    {
        let s = vstd::slice::slice_index_get(signers, i);
        let rho = binding_factor(s.index, message, signers);
        let bound = s.binding.scaled(&rho);
        let term = s.hiding.plus(&bound);
        let acc2 = acc.plus(&term);
        proof {
            assert(signers@.take(i as int + 1).drop_last() =~= signers@.take(i as int));
            assert(signers@.take(i as int + 1).last() == signers@[i as int]);
        }
        acc = acc2;
        i = i + 1;
    }
    proof {
        assert(signers@.take(n as int) =~= signers@);
    }
    acc
}

/// Computes the challenge scalar for `(R, Y, m)`.
fn challenge(group_commitment: &GroupElement, group_key: &GroupKey, message: &[u8]) -> (r: Scalar)
    ensures
        scalar_of(r) == challenge_of(
            point_dlog(*group_commitment),
            point_dlog(group_key.key),
            message@,
        ),
        scalar_of(r) < group_order(),
{
    let mut ctx = context_string();
    ctx.push(99u8);
    ctx.push(104u8);
    ctx.push(97u8);
    ctx.push(108u8);
    let mut msg: Vec<u8> = Vec::new();
    let r_bytes = point_to_bytes(group_commitment);
    push_bytes(&mut msg, r_bytes.as_slice());
    let y_bytes = point_to_bytes(&group_key.key);
    push_bytes(&mut msg, y_bytes.as_slice());
    push_bytes(&mut msg, message);
    proof {
        assert(ctx@ =~= chal_context());
        assert(msg@ =~= point_enc(point_dlog(*group_commitment)) + point_enc(
            point_dlog(group_key.key),
        ) + message@);
    }
    hash_to_scalar(ctx.as_slice(), msg.as_slice())
}

/// Produces this signer's partial signature on `message`, consuming (and
/// wiping) one precomputed commitment share.
///
/// The partial response is `z_i = d_i + ρ_i · e_i + λ_i · s_i · c`, with
/// `λ_i` the Lagrange coefficient of the signer within the signer set.
/// Fails with `DuplicateShares` when the signer set is empty or repeats
/// this signer's index.
pub fn sign_partial(
    message: &[u8],
    group_key: &GroupKey,
    signing_key: &IndividualSigningKey,
    my_commitment_share: CommitmentShare,
    signers: &[SignerNonceCommitment],
) -> (r: FrostResult<PartialThresholdSignature>)
    ensures
        r is Ok <==> signers@.len() > 0 && occurrences(signing_key.index, signer_indices(signers@))
            <= 1,
        r matches Err(e) ==> e is DuplicateShares,
        r matches Ok(p) ==> p.index == signing_key.index && scalar_of(p.z) == qadd(
            qadd(
                scalar_of(my_commitment_share.hiding.secret),
                qmul(
                    binding_factor_of(signing_key.index, message@, signers@),
                    scalar_of(my_commitment_share.binding.secret),
                ),
            ),
            qmul(
                qmul(
                    lagrange_coefficient_spec(signing_key.index, signer_indices(signers@)),
                    scalar_of(signing_key.key),
                ),
                challenge_of(
                    group_commitment_of(message@, signers@),
                    point_dlog(group_key.key),
                    message@,
                ),
            ),
        ),
{
    let mut index_vector: Vec<u32> = Vec::new();
    let n = signers.len();
    let mut k: usize = 0;
    while k < n
        invariant
            n == signers@.len(),
            k <= n,
            index_vector@.len() == k,
            forall|i: int| 0 <= i < k ==> index_vector@[i] == signers@[i].index,
        decreases n - k,
    {
        index_vector.push(vstd::slice::slice_index_get(signers, k).index);
        k = k + 1;
    }
    proof {
        assert(index_vector@ =~= signer_indices(signers@));
    }
    let lambda = match calculate_lagrange_coefficients(signing_key.index, index_vector.as_slice()) {
        Ok(c) => c,
        Err(e) => {
            let mut consumed = my_commitment_share;
            consumed.zeroize();
            return Err(e);
        },
    };
    let rho = binding_factor(signing_key.index, message, signers);
    let group_commitment = compute_group_commitment(message, signers);
    let c = challenge(&group_commitment, group_key, message);
    let bound = rho.times(&my_commitment_share.binding.secret);
    let nonce_part = my_commitment_share.hiding.secret.plus(&bound);
    let key_part = lambda.times(&signing_key.key).times(&c);
    let z = nonce_part.plus(&key_part);
    proof {
        crate::arith::lemma_qmul_comm(
            scalar_of(my_commitment_share.binding.secret),
            binding_factor_of(signing_key.index, message@, signers@),
        );
    }
    let mut consumed = my_commitment_share;
    consumed.zeroize();
    Ok(PartialThresholdSignature { index: signing_key.index, z })
}

/// The sum of the partial responses, modulo the group order.
pub open spec fn partials_sum(ps: Seq<PartialThresholdSignature>) -> nat
    decreases ps.len(),
{
    if ps.len() == 0 {
        0
    } else {
        qadd(partials_sum(ps.drop_last()), scalar_of(ps.last().z))
    }
}

/// Aggregates the partial signatures of a session into `(R, z)`.
pub fn aggregate_signatures(
    message: &[u8],
    signers: &[SignerNonceCommitment],
    partial_signatures: &[PartialThresholdSignature],
) -> (r: ThresholdSignature)
    ensures
        point_dlog(r.group_commitment) == group_commitment_of(message@, signers@),
        scalar_of(r.z) == partials_sum(partial_signatures@),
{
    let group_commitment = compute_group_commitment(message, signers);
    let mut z = Scalar::from_index(0);
    proof {
        lemma_mod_noop_small(0);
    }
    let n = partial_signatures.len();
    let mut i: usize = 0;
    while i < n
        invariant
            n == partial_signatures@.len(),
            i <= n,
            scalar_of(z) == partials_sum(partial_signatures@.take(i as int)),
            scalar_of(z) < group_order(),
        decreases n - i,
    {
        z = z.plus(&vstd::slice::slice_index_get(partial_signatures, i).z);
        proof {
            assert(partial_signatures@.take(i as int + 1).drop_last() =~= partial_signatures@.take(
                i as int,
            ));
        }
        i = i + 1;
    }
    proof {
        assert(partial_signatures@.take(n as int) =~= partial_signatures@);
    }
    ThresholdSignature { group_commitment, z }
}

impl ThresholdSignature {
    /// Verifies this signature on `message` under the group key: accepts
    /// exactly when `z · B = R + c · Y`.
    pub fn verify(&self, group_key: &GroupKey, message: &[u8]) -> (r: FrostResult<()>)
        ensures
            r is Ok <==> scalar_of(self.z) % group_order() == qadd(
                point_dlog(self.group_commitment),
                qmul(
                    challenge_of(
                        point_dlog(self.group_commitment),
                        point_dlog(group_key.key),
                        message@,
                    ),
                    point_dlog(group_key.key),
                ),
            ),
            r matches Err(e) ==> e is Custom,
    {
        let c = challenge(&self.group_commitment, group_key, message);
        let lhs = GroupElement::basepoint_mul(&self.z);
        let scaled = group_key.key.scaled(&c);
        let rhs = self.group_commitment.plus(&scaled);
        proof {
            crate::arith::lemma_qmul_comm(
                point_dlog(group_key.key),
                challenge_of(
                    point_dlog(self.group_commitment),
                    point_dlog(group_key.key),
                    message@,
                ),
            );
            crate::arith::lemma_qadd_mod_noop(
                point_dlog(self.group_commitment),
                (challenge_of(
                    point_dlog(self.group_commitment),
                    point_dlog(group_key.key),
                    message@,
                ) * point_dlog(group_key.key)) as nat,
            );
        }
        if crate::curve::point_eq(&lhs, &rhs) {
            Ok(())
        } else {
            Err(Error::Custom(String::from_str("signature verification failed")))
        }
    }

    /// Serializes this signature as the point followed by the scalar.
    pub fn to_bytes(&self) -> (r: FrostResult<Vec<u8>>)
        ensures
            r is Ok,
            r matches Ok(b) ==> b@ == point_enc(point_dlog(self.group_commitment))
                + crate::curve::scalar_enc(scalar_of(self.z)),
    {
        let mut bytes = point_to_bytes(&self.group_commitment);
        let z_bytes = crate::curve::scalar_to_bytes(&self.z);
        push_bytes(&mut bytes, z_bytes.as_slice());
        Ok(bytes)
    }
}

} // verus!
