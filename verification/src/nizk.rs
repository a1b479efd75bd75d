//! A non-interactive Schnorr proof of knowledge of a discrete logarithm,
//! binding the prover's participant index into the challenge so that a
//! proof cannot be replayed under another identity.

use vstd::prelude::*;

use crate::arith::lemma_mod_noop_small;
use crate::arith::lemma_qadd_mod_noop;
use crate::arith::lemma_qmul_comm;
use crate::arith::lemma_qmul_mod_noop;
use crate::codec::push_bytes;
use crate::codec::push_u32_be;
use crate::codec::u32_be;
use crate::curve::context_string;
use crate::curve::group_order;
use crate::curve::hash_to_scalar_of;
use crate::curve::point_dlog;
use crate::curve::point_enc;
use crate::curve::point_to_bytes;
use crate::curve::qadd;
use crate::curve::qmul;
use crate::curve::scalar_of;
use crate::curve::spec_context_string;
use crate::curve::GroupElement;
use crate::curve::Scalar;
use crate::Error;
use crate::FrostResult;

verus! {

/// The challenge scalar of a proof for `(index, public key, commitment)`:
/// the hash of the index and both points under the fixed context.
pub open spec fn nizk_challenge(index: u32, pk_dlog: nat, r_dlog: nat) -> nat {
    hash_to_scalar_of(spec_context_string(), u32_be(index) + point_enc(pk_dlog) + point_enc(r_dlog))
}

/// Whether a proof passes verification for `(index, public key)`: the
/// Schnorr equation `z · B = R + c · pk`, on discrete logarithms.
pub open spec fn nizk_verifies(index: u32, pk_dlog: nat, pok: NizkPokOfSecretKey) -> bool {
    scalar_of(pok.response) % group_order() == qadd(
        point_dlog(pok.commitment),
        qmul(nizk_challenge(index, pk_dlog, point_dlog(pok.commitment)), pk_dlog),
    )
}

/// A Schnorr proof `(R, z)` of knowledge of the discrete logarithm of a
/// public key.
pub struct NizkPokOfSecretKey {
    /// The prover's nonce commitment `R = k · B`.
    pub commitment: GroupElement,
    /// The response `z = k + c · secret`.
    pub response: Scalar,
}

impl NizkPokOfSecretKey {
    /// Proves knowledge of `secret` for `public_key`, binding `index` into
    /// the challenge.  A proof made with the matching key pair verifies.
    pub fn prove(index: u32, secret: &Scalar, public_key: &GroupElement) -> (r: FrostResult<
        NizkPokOfSecretKey,
    >)
        ensures
            r is Ok,
            r matches Ok(pok) ==> (point_dlog(*public_key) == scalar_of(*secret) % group_order()
                ==> nizk_verifies(index, point_dlog(*public_key), pok)),
    {
        let k = Scalar::random();
        let big_r = GroupElement::basepoint_mul(&k);
        let challenge = challenge_scalar(index, public_key, &big_r);
        let z = k.plus(&challenge.times(secret));
        let pok = NizkPokOfSecretKey { commitment: big_r, response: z };
        proof {
            if point_dlog(*public_key) == scalar_of(*secret) % group_order() {
                let c = nizk_challenge(index, point_dlog(*public_key), point_dlog(big_r));
                lemma_mod_noop_small(scalar_of(k));
                lemma_qmul_mod_noop(c, scalar_of(*secret));
                lemma_qadd_mod_noop(scalar_of(k), qmul(c, scalar_of(*secret)) as nat);
                lemma_mod_noop_small(qadd(scalar_of(k), qmul(c, scalar_of(*secret))));
            }
        }
        Ok(pok)
    }

    /// Verifies this proof against `(index, public_key)`: recomputes the
    /// challenge and checks the Schnorr equation, failing with
    /// `InvalidProofOfKnowledge` otherwise.
    pub fn verify(&self, index: u32, public_key: &GroupElement) -> (r: FrostResult<()>)
        ensures
            r is Ok <==> nizk_verifies(index, point_dlog(*public_key), *self),
            r matches Err(e) ==> e is InvalidProofOfKnowledge,
    {
        let challenge = challenge_scalar(index, public_key, &self.commitment);
        let lhs = GroupElement::basepoint_mul(&self.response);
        let scaled_pk = public_key.scaled(&challenge);
        let rhs = self.commitment.plus(&scaled_pk);
        proof {
            lemma_qmul_comm(
                point_dlog(*public_key),
                nizk_challenge(index, point_dlog(*public_key), point_dlog(self.commitment)),
            );
            lemma_qadd_mod_noop(
                point_dlog(self.commitment),
                (point_dlog(*public_key) * nizk_challenge(
                    index,
                    point_dlog(*public_key),
                    point_dlog(self.commitment),
                )) as nat,
            );
        }
        if crate::curve::point_eq(&lhs, &rhs) {
            Ok(())
        } else {
            Err(Error::InvalidProofOfKnowledge)
        }
    }
}

impl NizkPokOfSecretKey {
    /// The canonical encoding: the commitment point, then the response.
    pub open spec fn enc(self) -> Seq<u8> {
        point_enc(point_dlog(self.commitment)) + crate::curve::scalar_enc(
            scalar_of(self.response),
        )
    }

    /// Serializes this proof to 65 bytes.
    pub fn to_bytes(&self) -> (r: FrostResult<Vec<u8>>)
        ensures
            r is Ok,
            r matches Ok(b) ==> b@ == self.enc() && b@.len() == 65,
    {
        let mut bytes = point_to_bytes(&self.commitment);
        let z_bytes = crate::curve::scalar_to_bytes(&self.response);
        push_bytes(&mut bytes, z_bytes.as_slice());
        Ok(bytes)
    }

    /// Parses a proof from the encoding of `to_bytes`, accepting only the
    /// canonical point encoding.
    pub fn from_bytes(bytes: &[u8]) -> (r: FrostResult<NizkPokOfSecretKey>)
        ensures
            r matches Ok(p) ==> p.enc() == bytes@,
            r matches Err(e) ==> e is DeserializationError,
            forall|d: nat, v: nat|
                d < group_order() && v < group_order() && bytes@.len() == 65 && point_enc(
                    d,
                ).len() == 33 && bytes@ == point_enc(d) + crate::curve::scalar_enc(v) ==> r is Ok
                    && point_dlog(r.unwrap().commitment) == d && scalar_of(r.unwrap().response)
                    == v,
    {
        if bytes.len() != 65 {
            return Err(Error::DeserializationError);
        }
        let point_slice = vstd::slice::slice_subrange(bytes, 0, 33);
        let scalar_slice = vstd::slice::slice_subrange(bytes, 33, 65);
        proof {
            assert forall|d: nat, v: nat|
                d < group_order() && v < group_order() && bytes@.len() == 65 && point_enc(
                    d,
                ).len() == 33 && bytes@ == point_enc(d) + crate::curve::scalar_enc(v) implies
                point_slice@ == point_enc(d) && scalar_slice@ == crate::curve::scalar_enc(v) by {
                assert((point_enc(d) + crate::curve::scalar_enc(v)).subrange(0, 33) =~= point_enc(
                    d,
                ));
                assert((point_enc(d) + crate::curve::scalar_enc(v)).subrange(33, 65)
                    =~= crate::curve::scalar_enc(v));
            }
        }
        let commitment = match crate::keys::decode_canonical_point(point_slice) {
            Some(p) => p,
            None => {
                return Err(Error::DeserializationError);
            },
        };
        let response = match crate::curve::scalar_from_bytes(scalar_slice) {
            Some(s) => s,
            None => {
                return Err(Error::DeserializationError);
            },
        };
        let r = NizkPokOfSecretKey { commitment, response };
        proof {
            assert(bytes@ =~= bytes@.subrange(0, 33) + bytes@.subrange(33, 65));
        }
        Ok(r)
    }
}

impl Clone for NizkPokOfSecretKey {
    fn clone(&self) -> (r: NizkPokOfSecretKey)
        ensures
            point_dlog(r.commitment) == point_dlog(self.commitment),
            scalar_of(r.response) == scalar_of(self.response),
    {
        NizkPokOfSecretKey { commitment: self.commitment.clone(), response: self.response.clone() }
    }
}

impl PartialEq for NizkPokOfSecretKey {
    fn eq(&self, other: &NizkPokOfSecretKey) -> (r: bool) {
        crate::curve::point_eq(&self.commitment, &other.commitment)
            && crate::curve::scalar_eq(&self.response, &other.response)
    }
}

impl Eq for NizkPokOfSecretKey {}

impl vstd::std_specs::cmp::PartialEqSpecImpl for NizkPokOfSecretKey {
    open spec fn obeys_eq_spec() -> bool {
        true
    }

    open spec fn eq_spec(&self, other: &NizkPokOfSecretKey) -> bool {
        point_dlog(self.commitment) == point_dlog(other.commitment) && scalar_of(self.response)
            == scalar_of(other.response)
    }
}

/// Hashes `(index, public key, nonce commitment)` to the challenge scalar.
fn challenge_scalar(index: u32, public_key: &GroupElement, big_r: &GroupElement) -> (r: Scalar)
    ensures
        scalar_of(r) == nizk_challenge(index, point_dlog(*public_key), point_dlog(*big_r)),
        scalar_of(r) < group_order(),
{
    let ctx = context_string();
    let mut msg: Vec<u8> = Vec::new();
    push_u32_be(&mut msg, index);
    let pk_bytes = point_to_bytes(public_key);
    push_bytes(&mut msg, pk_bytes.as_slice());
    let r_bytes = point_to_bytes(big_r);
    push_bytes(&mut msg, r_bytes.as_slice());
    proof {
        assert(msg@ =~= u32_be(index) + point_enc(point_dlog(*public_key)) + point_enc(
            point_dlog(*big_r),
        ));
    }
    crate::curve::hash_to_scalar(ctx.as_slice(), msg.as_slice())
}

} // verus!
