//! The two-round distributed key generation protocol, and resharing of an
//! existing group key to a new participant set.
//!
//! Round one: every participant publishes its Diffie–Hellman public key
//! with a proof of knowledge, and every dealer additionally publishes its
//! Feldman commitment with a proof of knowledge of the constant term.
//! Peers whose proofs fail are classified as misbehaving and excluded;
//! they never abort the run.  Dealers then encrypt one polynomial
//! evaluation for every honest recipient.  Round two: every participant
//! decrypts the shares addressed to it and keeps those that pass the
//! Feldman check.  Finalization derives the participant's long-lived
//! signing share and the group key from the accepted dealers.

use vstd::prelude::*;

use crate::curve::group_order;
use crate::curve::point_dlog;
use crate::curve::qmul;
use crate::curve::scalar_of;
use crate::curve::GroupElement;
use crate::curve::Scalar;
use crate::keys::distinct_commitment_indices;
use crate::keys::ivk_value;
use crate::keys::DiffieHellmanPrivateKey;
use crate::keys::DiffieHellmanPublicKey;
use crate::keys::GroupKey;
use crate::keys::IndividualSigningKey;
use crate::keys::IndividualVerifyingKey;
use crate::nizk::nizk_verifies;
use crate::nizk::NizkPokOfSecretKey;
use crate::parameters::ThresholdParameters;
use crate::secret_share::decrypt_share;
use crate::secret_share::encrypt_share;
use crate::secret_share::poly_eval;
use crate::secret_share::share_mask;
use crate::secret_share::share_tag;
use crate::secret_share::xor_seq;
use crate::secret_share::Coefficients;
use crate::secret_share::EncryptedSecretShare;
use crate::secret_share::SecretShare;
use crate::secret_share::VerifiableSecretSharingCommitment;
use crate::curve::scalar_enc;
use crate::curve::point_enc;
use crate::codec::u32_be;
use crate::Error;
use crate::FrostResult;

verus! {

/// A participant in the distributed key generation: a dealer when it
/// carries a commitment and a proof for its constant term, and a plain
/// signer (a resharing recipient) otherwise.
pub struct Participant {
    /// The index of this participant, nonzero and unique in the instance.
    pub index: u32,
    /// The key used to derive the symmetric keys that encrypt shares.
    pub dh_public_key: DiffieHellmanPublicKey,
    /// A dealer's commitment to the coefficients of its polynomial.
    pub commitments: Option<VerifiableSecretSharingCommitment>,
    /// A dealer's proof of knowledge of its constant term.
    pub proof_of_secret_key: Option<NizkPokOfSecretKey>,
    /// The proof of knowledge of the Diffie–Hellman private key.
    pub proof_of_dh_private_key: NizkPokOfSecretKey,
}

impl Participant {
    /// Builds a dealer: samples `t` uniform coefficients, commits to them,
    /// samples a Diffie–Hellman keypair, and proves knowledge of both the
    /// constant term and the private key.
    pub fn new_dealer(parameters: &ThresholdParameters, index: u32) -> (r: FrostResult<
        (Participant, Coefficients, DiffieHellmanPrivateKey),
    >)
        requires
            parameters.is_valid(),
        ensures
            r is Ok,
            r matches Ok(out) ==> dealer_consistent(out.0, out.1, out.2)
                && out.1.model().len() == parameters.t && out.0.index == index,
    {
        let secret = Scalar::random();
        Participant::new_internal(parameters, index, secret)
    }

    /// Builds a plain signer: only a Diffie–Hellman keypair and its proof.
    pub fn new_signer(parameters: &ThresholdParameters, index: u32) -> (r: FrostResult<
        (Participant, DiffieHellmanPrivateKey),
    >)
        requires
            parameters.is_valid(),
        ensures
            r is Ok,
            r matches Ok(out) ==> out.0.index == index && out.0.commitments is None
                && out.0.proof_of_secret_key is None && point_dlog(out.0.dh_public_key.key)
                == scalar_of(out.1.0) % group_order() && nizk_verifies(
                index,
                point_dlog(out.0.dh_public_key.key),
                out.0.proof_of_dh_private_key,
            ),
    {
        let dh_private = Scalar::random();
        let dh_public_point = GroupElement::basepoint_mul(&dh_private);
        let proof_of_dh_private_key = match NizkPokOfSecretKey::prove(
            index,
            &dh_private,
            &dh_public_point,
        ) {
            Ok(p) => p,
            Err(_) => {
                return Err(Error::InvalidProofOfKnowledge);
            },
        };
        let participant = Participant {
            index,
            dh_public_key: DiffieHellmanPublicKey::new(dh_public_point),
            commitments: None,
            proof_of_secret_key: None,
            proof_of_dh_private_key,
        };
        Ok((participant, DiffieHellmanPrivateKey(dh_private)))
    }

    /// Builds a dealer whose polynomial has the given constant term.
    fn new_internal(
        parameters: &ThresholdParameters,
        index: u32,
        constant_term: Scalar,
    ) -> (r: FrostResult<(Participant, Coefficients, DiffieHellmanPrivateKey)>)
        requires
            parameters.is_valid(),
            scalar_of(constant_term) < group_order(),
        ensures
            r is Ok,
            r matches Ok(out) ==> dealer_consistent(out.0, out.1, out.2)
                && out.1.model().len() == parameters.t && out.0.index == index
                && out.1.model()[0] == scalar_of(constant_term),
    {
        let t = parameters.t as usize;
        let dh_private = Scalar::random();
        let dh_public_point = GroupElement::basepoint_mul(&dh_private);
        let proof_of_dh_private_key = match NizkPokOfSecretKey::prove(
            index,
            &dh_private,
            &dh_public_point,
        ) {
            Ok(p) => p,
            Err(_) => {
                return Err(Error::InvalidProofOfKnowledge);
            },
        };
        let mut coefficients: Vec<Scalar> = Vec::new();
        coefficients.push(constant_term.clone());
        let mut k: usize = 1;
        while k < t
            invariant
                1 <= k <= t || (t == 0 && k == 1),
                coefficients@.len() == k,
                scalar_of(coefficients@[0]) == scalar_of(constant_term),
                forall|i: int| 0 <= i < k ==> scalar_of(coefficients@[i]) < group_order(),
            decreases t - k,
        {
            coefficients.push(Scalar::random());
            k = k + 1;
        }
        let mut points: Vec<GroupElement> = Vec::new();
        let mut j: usize = 0;
        while j < coefficients.len()
            invariant
                points@.len() == j,
                j <= coefficients@.len(),
                forall|i: int|
                    0 <= i < j ==> point_dlog(points@[i]) == scalar_of(coefficients@[i])
                        % group_order(),
                forall|i: int| 0 <= i < coefficients@.len() ==> scalar_of(coefficients@[i])
                    < group_order(),
                scalar_of(coefficients@[0]) == scalar_of(constant_term),
            decreases coefficients@.len() - j,
        {
            points.push(GroupElement::basepoint_mul(&coefficients[j]));
            j = j + 1;
        }
        let commitment = VerifiableSecretSharingCommitment { index, points };
        let public_key_point = match commitment.public_key() {
            Some(p) => p,
            None => {
                return Err(Error::InvalidParameters);
            },
        };
        let first = public_key_point.clone();
        let proof_of_secret_key = match NizkPokOfSecretKey::prove(index, &constant_term, &first) {
            Ok(p) => p,
            Err(_) => {
                return Err(Error::InvalidProofOfKnowledge);
            },
        };
        let coeffs = Coefficients { coefficients };
        let participant = Participant {
            index,
            dh_public_key: DiffieHellmanPublicKey::new(dh_public_point),
            commitments: Some(commitment),
            proof_of_secret_key: Some(proof_of_secret_key),
            proof_of_dh_private_key,
        };
        proof {
            assert(coeffs.model().len() == parameters.t);
            assert(participant.commitments.unwrap().model() =~= coeffs.model().map_values(
                |v: nat| v % group_order(),
            ));
        }
        Ok((participant, coeffs, DiffieHellmanPrivateKey(dh_private)))
    }

    /// Reshares this participant's signing share to a new signer set: the
    /// new dealer's polynomial has the old share as its constant term, so
    /// the group secret is preserved.
    pub fn reshare(
        parameters: &ThresholdParameters,
        secret_key: IndividualSigningKey,
        signers: &[Participant],
    ) -> (r: FrostResult<(Participant, Vec<EncryptedSecretShare>, DKGParticipantList)>)
        requires
            parameters.is_valid(),
            scalar_of(secret_key.key) < group_order(),
        ensures
            r is Ok <==> distinct_participant_indices(signers@),
            r matches Err(e) ==> e is DuplicateIndex,
            r matches Ok(out) ==> out.0.index == secret_key.index && (out.0.commitments matches
            Some(c) && point_dlog(c.points@[0]) == scalar_of(secret_key.key) && c.model().len()
                == parameters.t),
            r matches Ok(out) ==> classification_ok(out.2, signers@),
            r matches Ok(out) ==> (out.0.commitments matches Some(c) && forall|a: int|
                0 <= a < out.1@.len() ==> #[trigger] reshare_share_addressed(
                    out.1@[a],
                    c,
                    point_dlog(out.0.dh_public_key.key),
                    secret_key.index,
                    signers@,
                )),
    {
        let (dealer, coefficients, dh_private_key) = match Participant::new_internal(
            parameters,
            secret_key.index,
            secret_key.key.clone(),
        ) {
            Ok(out) => out,
            Err(e) => {
                return Err(e);
            },
        };
        let (state, lists) = match DistributedKeyGeneration::new_state_internal(
            parameters,
            &dh_private_key,
            secret_key.index,
            Some(&coefficients),
            signers,
        ) {
            Ok(out) => out,
            Err(e) => {
                return Err(e);
            },
        };
        let encrypted_shares = match state.their_encrypted_secret_shares {
            Some(shares) => shares,
            None => {
                return Err(Error::Custom(String::from_str("dealer state carries no shares")));
            },
        };
        proof {
            let c = dealer.commitments.unwrap();
            crate::arith::lemma_mod_noop_small(scalar_of(secret_key.key));
            assert(c.model().len() == parameters.t);
            assert(c.model()[0] == point_dlog(c.points@[0]));
            assert(c.model()[0] == coefficients.model()[0] % group_order());
            let dealer_pk = point_dlog(dealer.dh_public_key.key);
            assert forall|a: int|
                0 <= a < encrypted_shares@.len() implies #[trigger] reshare_share_addressed(
                encrypted_shares@[a],
                c,
                dealer_pk,
                secret_key.index,
                signers@,
            ) by {
                let e = encrypted_shares@[a];
                assert(share_addressed(
                    e,
                    coefficients.model(),
                    secret_key.index,
                    scalar_of(dh_private_key.0),
                    signers@,
                ));
                let pidx = choose|p: int|
                    #![trigger signers@[p]]
                    0 <= p < signers@.len() && e.receiver_index == signers@[p].index
                        && e.sender_index == secret_key.index
                        && e.encrypted_polynomial_evaluation@ == xor_seq(
                        scalar_enc(
                            poly_eval(coefficients.model(), e.receiver_index as nat),
                        ),
                        share_mask(
                            qmul(
                                point_dlog(signers@[p].dh_public_key.key),
                                scalar_of(dh_private_key.0),
                            ),
                            secret_key.index,
                            e.receiver_index,
                        ),
                    ) && e.tag@ == share_tag(
                        qmul(
                            point_dlog(signers@[p].dh_public_key.key),
                            scalar_of(dh_private_key.0),
                        ),
                        secret_key.index,
                        e.receiver_index,
                        e.encrypted_polynomial_evaluation@,
                    );
                crate::arith::lemma_qmul_mod_noop(
                    point_dlog(signers@[pidx].dh_public_key.key),
                    scalar_of(dh_private_key.0),
                );
                assert(qmul(point_dlog(signers@[pidx].dh_public_key.key), dealer_pk) == qmul(
                    point_dlog(signers@[pidx].dh_public_key.key),
                    scalar_of(dh_private_key.0),
                ));
                crate::secret_share::lemma_poly_eval_congruent(
                    coefficients.model(),
                    c.model(),
                    e.receiver_index as nat,
                );
            }
        }
        Ok((dealer, encrypted_shares, lists))
    }

    /// The dealer's public-key contribution `φ_0`, when this participant
    /// is a dealer.
    pub fn public_key(&self) -> (r: Option<&GroupElement>)
        ensures
            r is Some <==> (self.commitments matches Some(c) && c.points@.len() > 0),
            r matches Some(p) ==> point_dlog(*p) == point_dlog(
                self.commitments.unwrap().points@[0],
            ),
    {
        match &self.commitments {
            Some(c) => c.public_key(),
            None => None,
        }
    }
}

impl Participant {
    /// The canonical encoding: the index, the Diffie–Hellman public key,
    /// the optional commitment and proof of secret key behind one-byte
    /// presence tags, and the Diffie–Hellman key proof.
    pub open spec fn enc(self) -> Seq<u8> {
        u32_be(self.index) + point_enc(point_dlog(self.dh_public_key.key)) + (match
        self.commitments {
            Some(c) => seq![1u8] + c.enc(),
            None => seq![0u8],
        }) + (match self.proof_of_secret_key {
            Some(p) => seq![1u8] + p.enc(),
            None => seq![0u8],
        }) + self.proof_of_dh_private_key.enc()
    }

    /// Serializes this participant.
    pub fn to_bytes(&self) -> (r: FrostResult<Vec<u8>>)
        ensures
            r is Ok,
            r matches Ok(b) ==> b@ == self.enc(),
    {
        let mut bytes: Vec<u8> = Vec::new();
        crate::codec::push_u32_be(&mut bytes, self.index);
        let dh_bytes = crate::curve::point_to_bytes(&self.dh_public_key.key);
        crate::codec::push_bytes(&mut bytes, dh_bytes.as_slice());
        match &self.commitments {
            Some(c) => {
                bytes.push(1u8);
                let c_bytes = match c.to_bytes() {
                    Ok(b) => b,
                    Err(e) => {
                        return Err(e);
                    },
                };
                crate::codec::push_bytes(&mut bytes, c_bytes.as_slice());
            },
            None => {
                bytes.push(0u8);
            },
        }
        match &self.proof_of_secret_key {
            Some(p) => {
                bytes.push(1u8);
                let p_bytes = match p.to_bytes() {
                    Ok(b) => b,
                    Err(e) => {
                        return Err(e);
                    },
                };
                crate::codec::push_bytes(&mut bytes, p_bytes.as_slice());
            },
            None => {
                bytes.push(0u8);
            },
        }
        let dh_proof_bytes = match self.proof_of_dh_private_key.to_bytes() {
            Ok(b) => b,
            Err(e) => {
                return Err(e);
            },
        };
        crate::codec::push_bytes(&mut bytes, dh_proof_bytes.as_slice());
        proof {
            assert(bytes@ =~= self.enc());
        }
        Ok(bytes)
    }

    /// Parses a participant from the encoding of `to_bytes`, accepting
    /// only canonical point encodings.
    pub fn from_bytes(bytes: &[u8]) -> (r: FrostResult<Participant>)
        ensures
            r matches Ok(p) ==> p.enc() == bytes@,
            r matches Err(e) ==> e is DeserializationError,
    {
        let total = bytes.len();
        if total < 38 {
            return Err(Error::DeserializationError);
        }
        let index = crate::codec::read_u32_be(bytes, 0);
        let dh_slice = vstd::slice::slice_subrange(bytes, 4, 37);
        let dh_point = match crate::keys::decode_canonical_point(dh_slice) {
            Some(p) => p,
            None => {
                return Err(Error::DeserializationError);
            },
        };
        let mut pos: usize = 37;
        let com_tag = *vstd::slice::slice_index_get(bytes, pos);
        pos = pos + 1;
        let commitments: Option<VerifiableSecretSharingCommitment> = if com_tag == 1u8 {
            if total - pos < 12 {
                return Err(Error::DeserializationError);
            }
            let count = crate::codec::read_u64_le(bytes, pos + 4);
            if count > ((total - pos - 12) / 33) as u64 {
                return Err(Error::DeserializationError);
            }
            proof {
                vstd::arithmetic::div_mod::lemma_fundamental_div_mod(
                    (total - pos - 12) as int,
                    33,
                );
                vstd::arithmetic::mul::lemma_mul_inequality(
                    count as int,
                    ((total - pos - 12) as int) / 33,
                    33,
                );
            }
            let c_len: usize = 12 + 33 * (count as usize);
            let c_slice = vstd::slice::slice_subrange(bytes, pos, pos + c_len);
            let c = match VerifiableSecretSharingCommitment::from_bytes(c_slice) {
                Ok(c) => c,
                Err(e) => {
                    return Err(e);
                },
            };
            pos = pos + c_len;
            Some(c)
        } else if com_tag == 0u8 {
            None
        } else {
            return Err(Error::DeserializationError);
        };
        if total - pos < 1 {
            return Err(Error::DeserializationError);
        }
        let pok_tag = *vstd::slice::slice_index_get(bytes, pos);
        let ghost pok_tag_pos = pos as int;
        pos = pos + 1;
        let proof_of_secret_key: Option<NizkPokOfSecretKey> = if pok_tag == 1u8 {
            if total - pos < 65 {
                return Err(Error::DeserializationError);
            }
            let p_slice = vstd::slice::slice_subrange(bytes, pos, pos + 65);
            let p = match NizkPokOfSecretKey::from_bytes(p_slice) {
                Ok(p) => p,
                Err(e) => {
                    return Err(e);
                },
            };
            pos = pos + 65;
            Some(p)
        } else if pok_tag == 0u8 {
            None
        } else {
            return Err(Error::DeserializationError);
        };
        if total - pos != 65 {
            return Err(Error::DeserializationError);
        }
        let dh_proof_slice = vstd::slice::slice_subrange(bytes, pos, pos + 65);
        let proof_of_dh_private_key = match NizkPokOfSecretKey::from_bytes(dh_proof_slice) {
            Ok(p) => p,
            Err(e) => {
                return Err(e);
            },
        };
        let r = Participant {
            index,
            dh_public_key: DiffieHellmanPublicKey::new(dh_point),
            commitments,
            proof_of_secret_key,
            proof_of_dh_private_key,
        };
        proof {
            assert(r.enc() =~= bytes@);
        }
        Ok(r)
    }
}

impl Clone for Participant {
    fn clone(&self) -> (r: Participant)
        ensures
            r.index == self.index,
            point_dlog(r.dh_public_key.key) == point_dlog(self.dh_public_key.key),
            r.commitments is Some <==> self.commitments is Some,
            r.commitments matches Some(c) ==> c.index == self.commitments.unwrap().index
                && c.model() == self.commitments.unwrap().model(),
    {
        let commitments = match &self.commitments {
            Some(c) => Some(c.clone()),
            None => None,
        };
        let proof_of_secret_key = match &self.proof_of_secret_key {
            Some(p) => Some(p.clone()),
            None => None,
        };
        Participant {
            index: self.index,
            dh_public_key: self.dh_public_key.clone(),
            commitments,
            proof_of_secret_key,
            proof_of_dh_private_key: self.proof_of_dh_private_key.clone(),
        }
    }
}

impl PartialEq for Participant {
    fn eq(&self, other: &Participant) -> (r: bool) {
        self.index == other.index
    }
}

impl vstd::std_specs::cmp::PartialEqSpecImpl for Participant {
    open spec fn obeys_eq_spec() -> bool {
        true
    }

    open spec fn eq_spec(&self, other: &Participant) -> bool {
        self.index == other.index
    }
}

impl PartialOrd for Participant {
    fn partial_cmp(&self, other: &Participant) -> (r: Option<core::cmp::Ordering>) {
        if self.index < other.index {
            Some(core::cmp::Ordering::Less)
        } else if self.index == other.index {
            // Participants must never share an index.
            None
        } else {
            Some(core::cmp::Ordering::Greater)
        }
    }
}

impl vstd::std_specs::cmp::PartialOrdSpecImpl for Participant {
    open spec fn obeys_partial_cmp_spec() -> bool {
        true
    }

    open spec fn partial_cmp_spec(&self, other: &Participant) -> Option<core::cmp::Ordering> {
        if self.index < other.index {
            Some(core::cmp::Ordering::Less)
        } else if self.index == other.index {
            None
        } else {
            Some(core::cmp::Ordering::Greater)
        }
    }
}

/// Whether a dealer participant, its coefficients and its private key are
/// mutually consistent: the commitment commits to the coefficients, and
/// both proofs verify.
pub open spec fn dealer_consistent(
    p: Participant,
    coeffs: Coefficients,
    dh_sk: DiffieHellmanPrivateKey,
) -> bool {
    &&& p.commitments matches Some(c) && c.index == p.index && c.model().len()
        == coeffs.model().len() && c.model().len() > 0 && (forall|i: int|
        0 <= i < c.model().len() ==> c.model()[i] == coeffs.model()[i] % group_order()) && (
    p.proof_of_secret_key matches Some(pok) && nizk_verifies(
        p.index,
        point_dlog(c.points@[0]),
        pok,
    ))
    &&& point_dlog(p.dh_public_key.key) == scalar_of(dh_sk.0) % group_order()
    &&& nizk_verifies(p.index, point_dlog(p.dh_public_key.key), p.proof_of_dh_private_key)
}

/// Whether the advertised participants carry pairwise distinct indices.
pub open spec fn distinct_participant_indices(ps: Seq<Participant>) -> bool {
    forall|a: int, b: int| 0 <= a < b < ps.len() ==> ps[a].index != ps[b].index
}

/// Whether a peer's round-one broadcast is acceptable: its Diffie–Hellman
/// proof verifies, and, when it claims to be a dealer, its commitment
/// carries its own index, is nonempty, and its proof of knowledge of the
/// constant term verifies against the first committed point.
pub open spec fn participant_acceptable(p: Participant) -> bool {
    &&& nizk_verifies(p.index, point_dlog(p.dh_public_key.key), p.proof_of_dh_private_key)
    &&& (p.commitments matches Some(c) ==> c.index == p.index && c.points@.len() > 0
        && (p.proof_of_secret_key matches Some(pok) && nizk_verifies(
        p.index,
        point_dlog(c.points@[0]),
        pok,
    )))
}

/// Whether the round-one lists classify every advertised peer correctly:
/// exactly the acceptable peers are honest, and exactly the others are
/// misbehaving.
pub open spec fn classification_ok(lists: DKGParticipantList, participants: Seq<Participant>,
) -> bool {
    forall|k: int|
        #![trigger participants[k]]
        0 <= k < participants.len() ==> ((lists.honest@.contains(participants[k].index)
            <==> participant_acceptable(participants[k])) && (lists.misbehaving@.contains(
            participants[k].index,
        ) <==> !participant_acceptable(participants[k])))
}

/// Whether `idx` names an advertised participant whose acceptability is
/// `good`.
pub open spec fn index_classified(participants: Seq<Participant>, idx: u32, good: bool) -> bool {
    exists|k: int|
        #![trigger participants[k]]
        0 <= k < participants.len() && participants[k].index == idx && (participant_acceptable(
            participants[k],
        ) == good)
}

/// The outcome of round one: the peers that passed their proofs, and the
/// peers that failed them.
pub struct DKGParticipantList {
    /// The indices of the peers whose proofs all verified.
    pub honest: Vec<u32>,
    /// The indices of the peers classified as misbehaving.
    pub misbehaving: Vec<u32>,
}

/// The state of a participant after round one: the accepted dealer
/// commitments, the peers' encryption keys, and, for a dealer, the
/// encrypted shares to distribute.
pub struct DistributedKeyGeneration {
    /// The parameters of the run.
    pub parameters: ThresholdParameters,
    /// This participant's index.
    pub index: u32,
    /// This participant's Diffie–Hellman private key.
    pub dh_private_key: DiffieHellmanPrivateKey,
    /// The commitments of the dealers accepted so far.
    pub their_commitments: Vec<VerifiableSecretSharingCommitment>,
    /// The Diffie–Hellman public keys of the accepted peers, by index.
    pub their_dh_public_keys: Vec<(u32, DiffieHellmanPublicKey)>,
    /// For a dealer, one encrypted share per honest recipient.
    pub their_encrypted_secret_shares: Option<Vec<EncryptedSecretShare>>,
}

/// The state of a participant after round two: the accepted, decrypted and
/// Feldman-verified shares addressed to it.
pub struct DistributedKeyGenerationRoundTwo {
    /// The parameters of the run.
    pub parameters: ThresholdParameters,
    /// This participant's index.
    pub index: u32,
    /// The commitments of the dealers whose shares were accepted.
    pub their_commitments: Vec<VerifiableSecretSharingCommitment>,
    /// The accepted plaintext shares, one per accepted dealer.
    pub my_secret_shares: Vec<SecretShare>,
}

impl DistributedKeyGeneration {
    /// Round one.  Checks every peer's proofs, classifies failures as
    /// misbehaving, and, when `my_coefficients` is present, encrypts one
    /// share of this dealer's polynomial for every honest peer.
    ///
    /// Fails with `DuplicateIndex` when two peers (or a peer and this
    /// participant) share an index.
    pub fn new_state_internal(
        parameters: &ThresholdParameters,
        dh_private_key: &DiffieHellmanPrivateKey,
        my_index: u32,
        my_coefficients: Option<&Coefficients>,
        participants: &[Participant],
    ) -> (r: FrostResult<(DistributedKeyGeneration, DKGParticipantList)>)
        ensures
            r matches Ok(out) ==> out.0.round_one_ok(),
            r matches Ok(out) ==> out.0.index == my_index && out.0.parameters == *parameters,
            r matches Ok(out) ==> (my_coefficients matches Some(cs)
                ==> out.0.their_encrypted_secret_shares matches Some(es) && shares_encrypt_poly(
                es@,
                cs.model(),
                my_index,
                scalar_of(dh_private_key.0),
                participants@,
            )),
            r matches Ok(out) ==> (my_coefficients is None
                ==> out.0.their_encrypted_secret_shares is None),
            r matches Ok(out) ==> classification_ok(out.1, participants@),
            r is Ok <==> distinct_participant_indices(participants@),
            r matches Err(e) ==> e is DuplicateIndex,
    {
        // Refuse duplicate indices anywhere in the advertised set.  The
        // list names every participant of the run, this one included when
        // it is itself a recipient.
        let n = participants.len();
        let mut all_indices: Vec<u32> = Vec::new();
        let mut k: usize = 0;
        while k < n
            invariant
                n == participants@.len(),
                k <= n,
                all_indices@.len() == k,
                forall|p: int| 0 <= p < k ==> all_indices@[p] == participants@[p].index,
            decreases n - k,
        {
            all_indices.push(vstd::slice::slice_index_get(participants, k).index);
            k = k + 1;
        }
        if !crate::utils::indices_distinct(all_indices.as_slice()) {
            proof {
                let (a, b) = choose|a: int, b: int|
                    0 <= a < b < all_indices@.len() && all_indices@[a] == all_indices@[b];
                assert(participants@[a].index == participants@[b].index);
            }
            return Err(Error::DuplicateIndex);
        }
        proof {
            assert forall|a: int, b: int|
                0 <= a < b < participants@.len() implies participants@[a].index
                != participants@[b].index by {
                assert(all_indices@[a] == participants@[a].index);
                assert(all_indices@[b] == participants@[b].index);
            }
        }
        let mut honest: Vec<u32> = Vec::new();
        let mut misbehaving: Vec<u32> = Vec::new();
        let mut their_commitments: Vec<VerifiableSecretSharingCommitment> = Vec::new();
        let mut their_dh_public_keys: Vec<(u32, DiffieHellmanPublicKey)> = Vec::new();
        let mut accepted: Vec<Participant> = Vec::new();
        let mut i: usize = 0;
        while i < n
            invariant
                n == participants@.len(),
                i <= n,
                distinct_commitment_indices(their_commitments@),
                accepted@.len() == their_dh_public_keys@.len(),
                forall|a: int|
                    0 <= a < accepted@.len() ==> their_dh_public_keys@[a].0 == accepted@[a].index
                        && point_dlog(their_dh_public_keys@[a].1.key) == point_dlog(
                        accepted@[a].dh_public_key.key,
                    ),
                forall|a: int|
                    #![trigger accepted@[a]]
                    0 <= a < accepted@.len() ==> exists|p: int|
                        #![trigger participants@[p]]
                        0 <= p < participants@.len() && accepted@[a].index
                            == participants@[p].index && point_dlog(accepted@[a].dh_public_key.key)
                            == point_dlog(participants@[p].dh_public_key.key),
                forall|a: int|
                    #![trigger their_commitments@[a]]
                    0 <= a < their_commitments@.len() ==> exists|p: int|
                        #![trigger participants@[p]]
                        0 <= p < i && their_commitments@[a].index == participants@[p].index,
                forall|a: int, b: int|
                    0 <= a < all_indices@.len() && 0 <= b < all_indices@.len() && a != b
                        ==> all_indices@[a] != all_indices@[b],
                all_indices@.len() == n,
                forall|p: int| 0 <= p < n ==> all_indices@[p] == participants@[p].index,
                forall|x: int|
                    #![trigger honest@[x]]
                    0 <= x < honest@.len() ==> index_classified(participants@, honest@[x], true),
                forall|x: int|
                    #![trigger misbehaving@[x]]
                    0 <= x < misbehaving@.len() ==> index_classified(
                        participants@,
                        misbehaving@[x],
                        false,
                    ),
                forall|k: int|
                    #![trigger participants@[k]]
                    0 <= k < i ==> (participant_acceptable(participants@[k]) ==> honest@.contains(
                        participants@[k].index,
                    )) && (!participant_acceptable(participants@[k]) ==> misbehaving@.contains(
                        participants@[k].index,
                    )),
            decreases n - i,
        {
            let p = vstd::slice::slice_index_get(participants, i);
            let dh_ok = match p.proof_of_dh_private_key.verify(p.index, &p.dh_public_key.key) {
                Ok(_) => true,
                Err(_) => false,
            };
            if !dh_ok {
                let ghost m_old = misbehaving@;
                misbehaving.push(p.index);
                proof {
                    broadcast use vstd::seq_lib::lemma_seq_contains_after_push;

                    assert(participant_acceptable(participants@[i as int]) == false);
                    assert(index_classified(participants@, p.index, false)) by {
                        assert(participants@[i as int].index == p.index);
                    }
                    assert forall|x: int| #![trigger misbehaving@[x]]
                        0 <= x < misbehaving@.len() implies index_classified(
                        participants@,
                        misbehaving@[x],
                        false,
                    ) by {
                        if x < m_old.len() {
                            assert(misbehaving@[x] == m_old[x]);
                        } else {
                            assert(misbehaving@[x] == p.index);
                        }
                    }
                    assert(m_old.push(p.index).contains(p.index));
                    assert forall|k: int| #![trigger participants@[k]]
                        0 <= k < i + 1 implies ((participant_acceptable(participants@[k])
                        ==> honest@.contains(participants@[k].index)) && (!participant_acceptable(
                        participants@[k],
                    ) ==> misbehaving@.contains(participants@[k].index))) by {
                        if k < i && !participant_acceptable(participants@[k]) {
                            assert(m_old.contains(participants@[k].index));
                            assert(m_old.push(p.index).contains(participants@[k].index));
                        }
                    }
                }
                i = i + 1;
                continue ;
            }
            let mut dealer_ok = true;
            match &p.commitments {
                Some(c) => {
                    if c.index != p.index {
                        dealer_ok = false;
                    }
                    match (&p.proof_of_secret_key, c.public_key()) {
                        (Some(pok), Some(pk)) => {
                            let pk_point = pk.clone();
                            match pok.verify(p.index, &pk_point) {
                                Ok(_) => {},
                                Err(_) => {
                                    dealer_ok = false;
                                },
                            }
                        },
                        _ => {
                            dealer_ok = false;
                        },
                    }
                },
                None => {},
            }
            if !dealer_ok {
                let ghost m_old = misbehaving@;
                misbehaving.push(p.index);
                proof {
                    broadcast use vstd::seq_lib::lemma_seq_contains_after_push;

                    assert(participant_acceptable(participants@[i as int]) == false);
                    assert(index_classified(participants@, p.index, false)) by {
                        assert(participants@[i as int].index == p.index);
                    }
                    assert forall|x: int| #![trigger misbehaving@[x]]
                        0 <= x < misbehaving@.len() implies index_classified(
                        participants@,
                        misbehaving@[x],
                        false,
                    ) by {
                        if x < m_old.len() {
                            assert(misbehaving@[x] == m_old[x]);
                        } else {
                            assert(misbehaving@[x] == p.index);
                        }
                    }
                    assert(m_old.push(p.index).contains(p.index));
                    assert forall|k: int| #![trigger participants@[k]]
                        0 <= k < i + 1 implies ((participant_acceptable(participants@[k])
                        ==> honest@.contains(participants@[k].index)) && (!participant_acceptable(
                        participants@[k],
                    ) ==> misbehaving@.contains(participants@[k].index))) by {
                        if k < i && !participant_acceptable(participants@[k]) {
                            assert(m_old.contains(participants@[k].index));
                            assert(m_old.push(p.index).contains(participants@[k].index));
                        }
                    }
                }
                i = i + 1;
                continue ;
            }
            let ghost h_old = honest@;
            honest.push(p.index);
            proof {
                broadcast use vstd::seq_lib::lemma_seq_contains_after_push;

                assert(participant_acceptable(participants@[i as int]) == true);
                assert(index_classified(participants@, p.index, true)) by {
                    assert(participants@[i as int].index == p.index);
                }
                assert forall|x: int| #![trigger honest@[x]]
                    0 <= x < honest@.len() implies index_classified(
                    participants@,
                    honest@[x],
                    true,
                ) by {
                    if x < h_old.len() {
                        assert(honest@[x] == h_old[x]);
                    } else {
                        assert(honest@[x] == p.index);
                    }
                }
                assert(h_old.push(p.index).contains(p.index));
                assert forall|k: int| #![trigger participants@[k]]
                    0 <= k < i + 1 implies ((participant_acceptable(participants@[k])
                    ==> honest@.contains(participants@[k].index)) && (!participant_acceptable(
                    participants@[k],
                ) ==> misbehaving@.contains(participants@[k].index))) by {
                    if k < i && participant_acceptable(participants@[k]) {
                        assert(h_old.contains(participants@[k].index));
                        assert(h_old.push(p.index).contains(participants@[k].index));
                    }
                }
            }
            match &p.commitments {
                Some(c) => {
                    proof {
                        assert(c.index == p.index);
                        assert forall|a: int|
                            0 <= a < their_commitments@.len() implies their_commitments@[a].index
                            != p.index by {
                            let q = choose|q: int|
                                #![trigger participants@[q]]
                                0 <= q < i && their_commitments@[a].index
                                    == participants@[q].index;
                            assert(all_indices@[q] == participants@[q].index);
                            assert(all_indices@[i as int] == participants@[i as int].index);
                        }
                    }
                    their_commitments.push(c.clone());
                    proof {
                        assert(their_commitments@.last().index == participants@[i as int].index);
                    }
                },
                None => {},
            }
            their_dh_public_keys.push((p.index, p.dh_public_key.clone()));
            accepted.push(p.clone());
            i = i + 1;
        }
        let their_encrypted_secret_shares: Option<Vec<EncryptedSecretShare>> = match
        my_coefficients {
            Some(coefficients) => {
                let mut shares: Vec<EncryptedSecretShare> = Vec::new();
                let m = accepted.len();
                let mut j: usize = 0;
                while j < m
                    invariant
                        m == accepted@.len(),
                        j <= m,
                        forall|a: int|
                            #![trigger accepted@[a]]
                            0 <= a < accepted@.len() ==> exists|p: int|
                                #![trigger participants@[p]]
                                0 <= p < participants@.len() && accepted@[a].index
                                    == participants@[p].index && point_dlog(
                                    accepted@[a].dh_public_key.key,
                                ) == point_dlog(participants@[p].dh_public_key.key),
                        shares@.len() == j,
                        forall|a: int|
                            0 <= a < j ==> #[trigger] share_addressed(
                                shares@[a],
                                coefficients.model(),
                                my_index,
                                scalar_of(dh_private_key.0),
                                participants@,
                            ),
                    decreases m - j,
                {
                    let recipient = &accepted[j];
                    let share = SecretShare::generate(coefficients, my_index, recipient.index);
                    let shared = recipient.dh_public_key.key.scaled(&dh_private_key.0);
                    let enc = encrypt_share(&share, &shared);
                    proof {
                        let p = choose|p: int|
                            0 <= p < participants@.len() && accepted@[j as int].index
                                == participants@[p].index && point_dlog(
                                accepted@[j as int].dh_public_key.key,
                            ) == point_dlog(participants@[p].dh_public_key.key);
                        assert(share_addressed(
                            enc,
                            coefficients.model(),
                            my_index,
                            scalar_of(dh_private_key.0),
                            participants@,
                        ));
                    }
                    shares.push(enc);
                    j = j + 1;
                }
                Some(shares)
            },
            None => None,
        };
        let state = DistributedKeyGeneration {
            parameters: *parameters,
            index: my_index,
            dh_private_key: dh_private_key.clone(),
            their_commitments,
            their_dh_public_keys,
            their_encrypted_secret_shares,
        };
        let lists = DKGParticipantList { honest, misbehaving };
        proof {
            assert forall|k: int|
                0 <= k < participants@.len() implies ((lists.honest@.contains(
                #[trigger] participants@[k].index,
            ) <==> participant_acceptable(participants@[k])) && (lists.misbehaving@.contains(
                participants@[k].index,
            ) <==> !participant_acceptable(participants@[k]))) by {
                if lists.honest@.contains(participants@[k].index) {
                    let x = choose|x: int|
                        0 <= x < lists.honest@.len() && lists.honest@[x] == participants@[
                            k
                        ].index;
                    assert(index_classified(participants@, lists.honest@[x], true));
                    let k2 = choose|k2: int|
                        #![trigger participants@[k2]]
                        0 <= k2 < participants@.len() && participants@[k2].index
                            == lists.honest@[x] && (participant_acceptable(participants@[k2])
                            == true);
                    assert(all_indices@[k2] == participants@[k2].index);
                    assert(all_indices@[k] == participants@[k].index);
                    assert(k2 == k);
                }
                if lists.misbehaving@.contains(participants@[k].index) {
                    let x = choose|x: int|
                        0 <= x < lists.misbehaving@.len() && lists.misbehaving@[x]
                            == participants@[k].index;
                    assert(index_classified(participants@, lists.misbehaving@[x], false));
                    let k2 = choose|k2: int|
                        #![trigger participants@[k2]]
                        0 <= k2 < participants@.len() && participants@[k2].index
                            == lists.misbehaving@[x] && (participant_acceptable(participants@[k2])
                            == false);
                    assert(all_indices@[k2] == participants@[k2].index);
                    assert(all_indices@[k] == participants@[k].index);
                    assert(k2 == k);
                }
            }
        }
        Ok((state, lists))
    }

    /// Whether the round-one state is well formed: accepted dealer
    /// commitments carry pairwise distinct indices.
    pub open spec fn round_one_ok(self) -> bool {
        distinct_commitment_indices(self.their_commitments@)
    }

    /// The encrypted shares this dealer must deliver, when it is a dealer.
    pub fn their_encrypted_secret_shares(&self) -> (r: Option<&Vec<EncryptedSecretShare>>)
        ensures
            r is Some <==> self.their_encrypted_secret_shares is Some,
    {
        match &self.their_encrypted_secret_shares {
            Some(v) => Some(v),
            None => None,
        }
    }

    /// Round two.  Decrypts every share addressed to this participant,
    /// keeps those of dealers that pass the Feldman check against their
    /// commitment, and records the others as misbehaving.  Fails with
    /// `InsufficientShares` when fewer than `t` dealers survive.
    pub fn to_round_two(self, my_encrypted_shares: &[EncryptedSecretShare]) -> (r: FrostResult<
        DistributedKeyGenerationRoundTwo,
    >)
        requires
            self.round_one_ok(),
        ensures
            r matches Ok(s2) ==> s2.round_two_ok() && s2.index == self.index && s2.parameters
                == self.parameters,
            r matches Ok(s2) ==> s2.my_secret_shares@.len() >= self.parameters.t,
            r matches Err(e) ==> e is InsufficientShares,
    {
        let mut accepted_commitments: Vec<VerifiableSecretSharingCommitment> = Vec::new();
        let mut accepted_shares: Vec<SecretShare> = Vec::new();
        let n = self.their_commitments.len();
        let mut i: usize = 0;
        while i < n
            invariant
                n == self.their_commitments@.len(),
                i <= n,
                self.round_one_ok(),
                accepted_commitments@.len() == accepted_shares@.len(),
                forall|a: int, b: int|
                    0 <= a < b < accepted_commitments@.len() ==> accepted_commitments@[a].index
                        != accepted_commitments@[b].index,
                forall|a: int|
                    #![trigger accepted_commitments@[a]]
                    0 <= a < accepted_commitments@.len() ==> exists|c: int|
                        #![trigger self.their_commitments@[c]]
                        0 <= c < i && accepted_commitments@[a].index
                            == self.their_commitments@[c].index,
                forall|a: int|
                    #![trigger accepted_shares@[a]]
                    0 <= a < accepted_shares@.len() ==> share_ok(
                        accepted_shares@[a],
                        accepted_commitments@[a],
                        self.index,
                    ),
            decreases n - i,
        {
            let commitment = &self.their_commitments[i];
            let sender = commitment.index;
            // Find the encrypted share from this dealer, and its key.
            let mut found: Option<&EncryptedSecretShare> = None;
            let m = my_encrypted_shares.len();
            let mut j: usize = 0;
            while j < m
                invariant
                    m == my_encrypted_shares@.len(),
                    j <= m,
                    found matches Some(e) ==> e.sender_index == sender && e.receiver_index
                        == self.index,
                decreases m - j,
            {
                if my_encrypted_shares[j].sender_index == sender
                    && my_encrypted_shares[j].receiver_index == self.index {
                    found = Some(&my_encrypted_shares[j]);
                }
                j = j + 1;
            }
            let enc = match found {
                Some(e) => e,
                None => {
                    i = i + 1;
                    continue ;
                },
            };
            let mut dh_pk: Option<&DiffieHellmanPublicKey> = None;
            let dkeys = self.their_dh_public_keys.len();
            let mut d: usize = 0;
            while d < dkeys
                invariant
                    dkeys == self.their_dh_public_keys@.len(),
                    d <= dkeys,
                decreases dkeys - d,
            {
                if self.their_dh_public_keys[d].0 == sender {
                    dh_pk = Some(&self.their_dh_public_keys[d].1);
                }
                d = d + 1;
            }
            let pk = match dh_pk {
                Some(p) => p,
                None => {
                    i = i + 1;
                    continue ;
                },
            };
            let shared = pk.key.scaled(&self.dh_private_key.0);
            let decrypted = match decrypt_share(enc, &shared) {
                Ok(s) => s,
                Err(_) => {
                    i = i + 1;
                    continue ;
                },
            };
            // A share from the right dealer, addressed to us, that passes
            // the Feldman check, is accepted.
            if decrypted.receiver_index != self.index {
                i = i + 1;
                continue ;
            }
            match decrypted.verify(commitment) {
                Ok(_) => {
                    proof {
                        assert forall|a: int|
                            0 <= a < accepted_commitments@.len() implies
                            accepted_commitments@[a].index != commitment.index by {
                            let c = choose|c: int|
                                #![trigger self.their_commitments@[c]]
                                0 <= c < i && accepted_commitments@[a].index
                                    == self.their_commitments@[c].index;
                        }
                    }
                    accepted_commitments.push(commitment.clone());
                    accepted_shares.push(decrypted);
                    proof {
                        let la = accepted_shares@.len() - 1;
                        assert(accepted_commitments@[la].index
                            == self.their_commitments@[i as int].index);
                        assert(accepted_commitments@[la].model()
                            == self.their_commitments@[i as int].model());
                        assert(share_ok(accepted_shares@[la], accepted_commitments@[la], self.index));
                    }
                },
                Err(_) => {},
            }
            i = i + 1;
        }
        if accepted_shares.len() < self.parameters.t as usize {
            return Err(Error::InsufficientShares);
        }
        Ok(
            DistributedKeyGenerationRoundTwo {
                parameters: self.parameters,
                index: self.index,
                their_commitments: accepted_commitments,
                my_secret_shares: accepted_shares,
            },
        )
    }
}

/// Whether an accepted share agrees with its dealer's commitment for the
/// recipient `idx`: it passes the Feldman equation, names the dealer as
/// sender, and is addressed to the recipient.
pub open spec fn share_ok(s: SecretShare, c: VerifiableSecretSharingCommitment, idx: u32) -> bool {
    &&& s.value() % group_order() == poly_eval(c.model(), idx as nat)
    &&& s.sender_index == c.index
    &&& s.receiver_index == idx
}

/// Whether `e` is a correctly formed encrypted share of the polynomial
/// `coeffs` from `sender` (with Diffie–Hellman residue `sk`) to one of the
/// advertised participants.
pub open spec fn share_addressed(
    e: EncryptedSecretShare,
    coeffs: Seq<nat>,
    sender: u32,
    sk: nat,
    participants: Seq<Participant>,
) -> bool {
    exists|p: int|
        0 <= p < participants.len() && e.receiver_index == participants[p].index
            && e.sender_index == sender && e.encrypted_polynomial_evaluation@ == xor_seq(
            scalar_enc(poly_eval(coeffs, e.receiver_index as nat)),
            share_mask(
                qmul(point_dlog(participants[p].dh_public_key.key), sk),
                sender,
                e.receiver_index,
            ),
        ) && e.tag@ == share_tag(
            qmul(point_dlog(participants[p].dh_public_key.key), sk),
            sender,
            e.receiver_index,
            e.encrypted_polynomial_evaluation@,
        )
}

/// Whether `e` is a correctly formed encrypted share of the polynomial
/// that `c` commits to, from the dealer with Diffie–Hellman public-key
/// discrete logarithm `dealer_pk`, to one of the advertised recipients.
/// This is [`share_addressed`] restated over a resharing dealer's public
/// outputs alone.
pub open spec fn reshare_share_addressed(
    e: EncryptedSecretShare,
    c: VerifiableSecretSharingCommitment,
    dealer_pk: nat,
    sender: u32,
    participants: Seq<Participant>,
) -> bool {
    exists|p: int|
        #![trigger participants[p]]
        0 <= p < participants.len() && e.receiver_index == participants[p].index
            && e.sender_index == sender && e.encrypted_polynomial_evaluation@ == xor_seq(
            scalar_enc(poly_eval(c.model(), e.receiver_index as nat)),
            share_mask(
                qmul(point_dlog(participants[p].dh_public_key.key), dealer_pk),
                sender,
                e.receiver_index,
            ),
        ) && e.tag@ == share_tag(
            qmul(point_dlog(participants[p].dh_public_key.key), dealer_pk),
            sender,
            e.receiver_index,
            e.encrypted_polynomial_evaluation@,
        )
}

/// Whether every share in `es` is a correctly formed encrypted share of
/// `coeffs` for an advertised participant.
pub open spec fn shares_encrypt_poly(
    es: Seq<EncryptedSecretShare>,
    coeffs: Seq<nat>,
    sender: u32,
    sk: nat,
    participants: Seq<Participant>,
) -> bool {
    forall|a: int|
        0 <= a < es.len() ==> #[trigger] share_addressed(es[a], coeffs, sender, sk, participants)
}

impl DistributedKeyGenerationRoundTwo {
    /// Whether the round-two state is well formed: distinct accepted
    /// dealers, and every kept share passes the Feldman equation of the
    /// dealer's commitment for this participant's index.
    pub open spec fn round_two_ok(self) -> bool {
        &&& distinct_commitment_indices(self.their_commitments@)
        &&& self.my_secret_shares@.len() == self.their_commitments@.len()
        &&& forall|a: int|
            #![trigger self.my_secret_shares@[a]]
            0 <= a < self.my_secret_shares@.len() ==> share_ok(
                self.my_secret_shares@[a],
                self.their_commitments@[a],
                self.index,
            )
    }

    /// Finalization.  Combines the accepted shares into this participant's
    /// signing share `s_i = Σ_j λ_j · σ_j`, checks `s_i · B` against the
    /// verification share that the accepted commitments determine, and
    /// derives the group key from the same commitments.
    pub fn finish(self) -> (r: FrostResult<(IndividualSigningKey, GroupKey)>)
        requires
            self.round_two_ok(),
        ensures
            r is Ok,
            r matches Ok(out) ==> scalar_of(out.0.key) == ivk_value(
                self.their_commitments@,
                self.index as nat,
            ) && scalar_of(out.0.key) < group_order() && out.0.index == self.index,
            r matches Ok(out) ==> point_dlog(out.1.key) == ivk_value(self.their_commitments@, 0),
    {
        let mut index_vector: Vec<u32> = Vec::new();
        let n = self.their_commitments.len();
        let mut k: usize = 0;
        while k < n
            invariant
                n == self.their_commitments@.len(),
                k <= n,
                index_vector@.len() == k,
                forall|i: int| 0 <= i < k ==> index_vector@[i] == self.their_commitments@[i].index,
            decreases n - k,
        {
            index_vector.push(self.their_commitments[k].index);
            k = k + 1;
        }
        proof {
            assert(index_vector@ =~= crate::keys::commitment_indices(self.their_commitments@));
        }
        let ghost idxs = index_vector@;
        let mut key = Scalar::from_index(0);
        proof {
            crate::arith::lemma_mod_noop_small(0);
        }
        let mut j: usize = 0;
        while j < n
            invariant
                n == self.their_commitments@.len(),
                n == self.my_secret_shares@.len(),
                j <= n,
                index_vector@ == idxs,
                idxs == crate::keys::commitment_indices(self.their_commitments@),
                self.round_two_ok(),
                scalar_of(key) == crate::keys::ivk_sum(
                    self.their_commitments@.take(j as int),
                    idxs,
                    self.index as nat,
                ),
                scalar_of(key) < group_order(),
            decreases n - j,
        {
            proof {
                assert forall|a: int, b: int|
                    0 <= a < b < idxs.len() implies idxs[a] != idxs[b] by {
                    assert(idxs[a] == self.their_commitments@[a].index);
                    assert(idxs[b] == self.their_commitments@[b].index);
                }
                crate::utils::lemma_occurrences_distinct(
                    self.their_commitments@[j as int].index,
                    idxs,
                );
            }
            let coeff = match crate::utils::calculate_lagrange_coefficients(
                self.their_commitments[j].index,
                index_vector.as_slice(),
            ) {
                Ok(c) => c,
                Err(_) => {
                    // Unreachable: the accepted indices are distinct.
                    return Err(Error::DuplicateShares);
                },
            };
            let sigma = &self.my_secret_shares[j].polynomial_evaluation;
            let term = coeff.times(sigma);
            let key2 = key.plus(&term);
            proof {
                let cs = self.their_commitments@;
                assert(cs.take(j as int + 1).drop_last() =~= cs.take(j as int));
                assert(cs.take(j as int + 1).last() == cs[j as int]);
                crate::arith::lemma_qmul_mod_noop(scalar_of(coeff), scalar_of(*sigma));
                assert(qmul(scalar_of(coeff), scalar_of(*sigma)) == qmul(
                    scalar_of(coeff),
                    poly_eval(cs[j as int].model(), self.index as nat),
                ));
            }
            key = key2;
            j = j + 1;
        }
        proof {
            assert(self.their_commitments@.take(n as int) =~= self.their_commitments@);
        }
        let signing_key = IndividualSigningKey { index: self.index, key };
        let verifying_key = signing_key.to_public();
        proof {
            assert forall|a: int, b: int|
                0 <= a < b < self.their_commitments@.len() implies self.their_commitments@[a].index
                != self.their_commitments@[b].index by {}
        }
        let expected = IndividualVerifyingKey::generate_from_commitments(
            self.index,
            self.their_commitments.as_slice(),
        );
        proof {
            crate::arith::lemma_mod_noop_small(scalar_of(signing_key.key));
        }
        if !crate::curve::point_eq(&verifying_key.share, &expected.share) {
            // Unreachable: the derived share provably equals the
            // reconstruction from the accepted commitments.
            return Err(Error::ShareVerificationError);
        }
        let group_key_share = IndividualVerifyingKey::generate_from_commitments(
            0u32,
            self.their_commitments.as_slice(),
        );
        let group_key = GroupKey::new(group_key_share.share.clone());
        Ok((signing_key, group_key))
    }
}

} // verus!
