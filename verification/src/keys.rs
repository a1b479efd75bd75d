//! The key material of the protocols: Diffie–Hellman keypairs for share
//! encryption, each participant's long-lived signing share and its public
//! counterpart, and the group verification key.

use vstd::prelude::*;

use crate::codec::bytes_equal;
use crate::codec::push_bytes;
use crate::codec::push_u32_be;
use crate::codec::read_u32_be;
use crate::codec::u32_be;
use crate::curve::group_order;
use crate::curve::point_dlog;
use crate::curve::point_enc;
use crate::curve::point_from_bytes;
use crate::curve::point_to_bytes;
use crate::curve::qadd;
use crate::curve::qmul;
use crate::curve::scalar_enc;
use crate::curve::scalar_from_bytes;
use crate::curve::scalar_of;
use crate::curve::scalar_to_bytes;
use crate::curve::scalar_zeroize;
use crate::curve::GroupElement;
use crate::curve::Scalar;
use crate::secret_share::poly_eval;
use crate::secret_share::VerifiableSecretSharingCommitment;
use crate::utils::calculate_lagrange_coefficients;
use crate::utils::indices_distinct;
use crate::utils::lagrange_coefficient_spec;
use crate::utils::lemma_occurrences_distinct;
use crate::Error;
use crate::FrostResult;

verus! {

/// The dealer indices carried by a sequence of commitments.
pub open spec fn commitment_indices(cs: Seq<VerifiableSecretSharingCommitment>) -> Seq<u32> {
    cs.map_values(|c: VerifiableSecretSharingCommitment| c.index)
}

/// The discrete logarithm of the interpolated verification share at `x`:
/// the sum over the commitments of the Lagrange coefficient of the dealer
/// index (over `idxs`) times the committed polynomial's value at `x`.
pub open spec fn ivk_sum(
    cs: Seq<VerifiableSecretSharingCommitment>,
    idxs: Seq<u32>,
    x: nat,
) -> nat
    decreases cs.len(),
{
    if cs.len() == 0 {
        0
    } else {
        qadd(
            ivk_sum(cs.drop_last(), idxs, x),
            qmul(
                lagrange_coefficient_spec(cs.last().index, idxs),
                poly_eval(cs.last().model(), x),
            ),
        )
    }
}

/// The discrete logarithm of the verification share that a set of accepted
/// dealer commitments determines for participant index `x`.
pub open spec fn ivk_value(cs: Seq<VerifiableSecretSharingCommitment>, x: nat) -> nat {
    ivk_sum(cs, commitment_indices(cs), x)
}

/// Whether the dealer indices in `cs` are pairwise distinct.
pub open spec fn distinct_commitment_indices(cs: Seq<VerifiableSecretSharingCommitment>) -> bool {
    forall|a: int, b: int| 0 <= a < b < cs.len() ==> cs[a].index != cs[b].index
}

/// A Diffie–Hellman private key, used to derive the symmetric keys that
/// encrypt secret shares.
pub struct DiffieHellmanPrivateKey(pub Scalar);

impl DiffieHellmanPrivateKey {
    /// Serializes this key to its canonical 32-byte scalar encoding.
    pub fn to_bytes(&self) -> (r: FrostResult<Vec<u8>>)
        ensures
            r is Ok,
            r matches Ok(b) ==> b@ == scalar_enc(scalar_of(self.0)),
    {
        Ok(scalar_to_bytes(&self.0))
    }

    /// Parses a key from its canonical scalar encoding.
    pub fn from_bytes(bytes: &[u8]) -> (r: FrostResult<DiffieHellmanPrivateKey>)
        ensures
            r matches Ok(k) ==> scalar_of(k.0) < group_order() && scalar_enc(scalar_of(k.0))
                == bytes@,
            forall|v: nat|
                v < group_order() && bytes@.len() == 32 && scalar_enc(v) == bytes@ ==> r is Ok
                    && scalar_of(r.unwrap().0) == v,
            r matches Err(e) ==> e is DeserializationError,
    {
        if bytes.len() != 32 {
            return Err(Error::DeserializationError);
        }
        match scalar_from_bytes(bytes) {
            Some(s) => Ok(DiffieHellmanPrivateKey(s)),
            None => Err(Error::DeserializationError),
        }
    }

    /// Overwrites the private scalar with zero.
    pub fn zeroize(&mut self)
        ensures
            scalar_of(final(self).0) == 0,
    {
        scalar_zeroize(&mut self.0);
    }
}

impl Clone for DiffieHellmanPrivateKey {
    fn clone(&self) -> (r: DiffieHellmanPrivateKey)
        ensures
            scalar_of(r.0) == scalar_of(self.0),
    {
        DiffieHellmanPrivateKey(self.0.clone())
    }
}

impl PartialEq for DiffieHellmanPrivateKey {
    fn eq(&self, other: &DiffieHellmanPrivateKey) -> (r: bool) {
        crate::curve::scalar_eq(&self.0, &other.0)
    }
}

impl Eq for DiffieHellmanPrivateKey {}

impl vstd::std_specs::cmp::PartialEqSpecImpl for DiffieHellmanPrivateKey {
    open spec fn obeys_eq_spec() -> bool {
        true
    }

    open spec fn eq_spec(&self, other: &DiffieHellmanPrivateKey) -> bool {
        scalar_of(self.0) == scalar_of(other.0)
    }
}

/// A Diffie–Hellman public key `D = d · B`.
pub struct DiffieHellmanPublicKey {
    /// The public point.
    pub key: GroupElement,
}

impl DiffieHellmanPublicKey {
    /// Wraps a group element as a public key.
    pub fn new(key: GroupElement) -> (r: DiffieHellmanPublicKey)
        ensures
            point_dlog(r.key) == point_dlog(key),
    {
        DiffieHellmanPublicKey { key }
    }

    /// Serializes this key to its canonical 33-byte point encoding.
    pub fn to_bytes(&self) -> (r: FrostResult<Vec<u8>>)
        ensures
            r is Ok,
            r matches Ok(b) ==> b@ == point_enc(point_dlog(self.key)) && b@.len() == 33,
    {
        Ok(point_to_bytes(&self.key))
    }

    /// Parses a key from its canonical point encoding, rejecting anything
    /// that does not re-encode to the same bytes.
    pub fn from_bytes(bytes: &[u8]) -> (r: FrostResult<DiffieHellmanPublicKey>)
        ensures
            r matches Ok(k) ==> point_dlog(k.key) < group_order() && point_enc(point_dlog(k.key))
                == bytes@,
            forall|d: nat|
                d < group_order() && bytes@.len() == 33 && point_enc(d) == bytes@ ==> r is Ok
                    && point_dlog(r.unwrap().key) == d,
            r matches Err(e) ==> e is DeserializationError,
    {
        match decode_canonical_point(bytes) {
            Some(p) => Ok(DiffieHellmanPublicKey { key: p }),
            None => Err(Error::DeserializationError),
        }
    }
}

impl Clone for DiffieHellmanPublicKey {
    fn clone(&self) -> (r: DiffieHellmanPublicKey)
        ensures
            point_dlog(r.key) == point_dlog(self.key),
    {
        DiffieHellmanPublicKey { key: self.key.clone() }
    }
}

impl PartialEq for DiffieHellmanPublicKey {
    fn eq(&self, other: &DiffieHellmanPublicKey) -> (r: bool) {
        crate::curve::point_eq(&self.key, &other.key)
    }
}

impl Eq for DiffieHellmanPublicKey {}

impl vstd::std_specs::cmp::PartialEqSpecImpl for DiffieHellmanPublicKey {
    open spec fn obeys_eq_spec() -> bool {
        true
    }

    open spec fn eq_spec(&self, other: &DiffieHellmanPublicKey) -> bool {
        point_dlog(self.key) == point_dlog(other.key)
    }
}

/// Decodes a group element and accepts it only when the input is its
/// canonical encoding.
pub(crate) fn decode_canonical_point(bytes: &[u8]) -> (r: Option<GroupElement>)
    ensures
        r matches Some(p) ==> point_dlog(p) < group_order() && point_enc(point_dlog(p)) == bytes@,
        forall|d: nat|
            d < group_order() && bytes@.len() == 33 && point_enc(d) == bytes@ ==> r is Some
                && point_dlog(r.unwrap()) == d,
{
    if bytes.len() != 33 {
        return None;
    }
    match point_from_bytes(bytes) {
        Some(p) => {
            let reenc = point_to_bytes(&p);
            if bytes_equal(reenc.as_slice(), bytes) {
                Some(p)
            } else {
                None
            }
        },
        None => None,
    }
}

/// A public verification share for a participant.
///
/// Any participant can recalculate the verification share, which is the
/// public half of an [`IndividualSigningKey`], of any other participant.
pub struct IndividualVerifyingKey {
    /// The participant index to which this key belongs.
    pub index: u32,
    /// The public verification share.
    pub share: GroupElement,
}

impl IndividualVerifyingKey {
    /// Serializes this key as the big-endian index followed by the
    /// canonical point encoding.
    pub fn to_bytes(&self) -> (r: FrostResult<Vec<u8>>)
        ensures
            r is Ok,
            r matches Ok(b) ==> b@ == u32_be(self.index) + point_enc(point_dlog(self.share))
                && b@.len() == 37,
    {
        let mut bytes: Vec<u8> = Vec::new();
        push_u32_be(&mut bytes, self.index);
        let point_bytes = point_to_bytes(&self.share);
        push_bytes(&mut bytes, point_bytes.as_slice());
        proof {
            assert(bytes@ =~= u32_be(self.index) + point_enc(point_dlog(self.share)));
        }
        Ok(bytes)
    }

    /// Parses a key from the encoding produced by `to_bytes`.
    pub fn from_bytes(bytes: &[u8]) -> (r: FrostResult<IndividualVerifyingKey>)
        ensures
            r matches Ok(k) ==> point_dlog(k.share) < group_order() && u32_be(k.index) + point_enc(
                point_dlog(k.share),
            ) == bytes@,
            forall|i: u32, d: nat|
                d < group_order() && bytes@.len() == 37 && u32_be(i) + point_enc(d) == bytes@
                    ==> r is Ok && r.unwrap().index == i && point_dlog(r.unwrap().share) == d,
            r matches Err(e) ==> e is DeserializationError,
    {
        if bytes.len() != 37 {
            return Err(Error::DeserializationError);
        }
        let index = read_u32_be(bytes, 0);
        let point_slice = vstd::slice::slice_subrange(bytes, 4, 37);
        let decoded = decode_canonical_point(point_slice);
        match decoded {
            Some(share) => {
                let r = IndividualVerifyingKey { index, share };
                proof {
                    assert(bytes@ =~= bytes@.subrange(0, 4) + bytes@.subrange(4, 37));
                    assert forall|i: u32, d: nat|
                        d < group_order() && bytes@.len() == 37 && u32_be(i) + point_enc(d)
                            == bytes@ implies r.index == i && point_dlog(r.share) == d by {
                        assert((u32_be(i) + point_enc(d)).subrange(0, 4) =~= u32_be(i));
                        assert((u32_be(i) + point_enc(d)).subrange(4, 37) =~= point_enc(d));
                        crate::codec::lemma_u32_be_injective(index, i);
                    }
                }
                Ok(r)
            },
            None => {
                proof {
                    assert forall|i: u32, d: nat|
                        d < group_order() && bytes@.len() == 37 && u32_be(i) + point_enc(d)
                            == bytes@ implies false by {
                        assert((u32_be(i) + point_enc(d)).subrange(4, 37) =~= point_enc(d));
                        assert(point_slice@ == point_enc(d));
                    }
                }
                Err(Error::DeserializationError)
            },
        }
    }

    /// Recomputes the verification share determined by `commitments` for
    /// this key's index and compares it with the stored share.
    pub fn verify(&self, commitments: &[VerifiableSecretSharingCommitment]) -> (r: FrostResult<()>)
        ensures
            r is Ok ==> distinct_commitment_indices(commitments@) && point_dlog(self.share)
                == ivk_value(commitments@, self.index as nat),
            !distinct_commitment_indices(commitments@) ==> (r matches Err(e)
                && e is DuplicateShares),
            distinct_commitment_indices(commitments@) ==> (r is Ok <==> point_dlog(self.share)
                == ivk_value(commitments@, self.index as nat)),
            distinct_commitment_indices(commitments@) ==> (r matches Err(e)
                ==> e is ShareVerificationError),
    {
        let mut index_vector: Vec<u32> = Vec::new();
        let n = commitments.len();
        let mut k: usize = 0;
        while k < n
            invariant
                n == commitments@.len(),
                k <= n,
                index_vector@.len() == k,
                forall|i: int| 0 <= i < k ==> index_vector@[i] == commitments@[i].index,
            decreases n - k,
        {
            index_vector.push(vstd::slice::slice_index_get(commitments, k).index);
            k = k + 1;
        }
        proof {
            assert(index_vector@ =~= commitment_indices(commitments@));
        }
        if !indices_distinct(index_vector.as_slice()) {
            proof {
                let a0 = choose|a: int, b: int|
                    0 <= a < b < index_vector@.len() && index_vector@[a] == index_vector@[b];
                assert(!distinct_commitment_indices(commitments@)) by {
                    assert(exists|a: int, b: int|
                        0 <= a < b < index_vector@.len() && index_vector@[a] == index_vector@[b]);
                }
            }
            return Err(Error::DuplicateShares);
        }
        proof {
            assert forall|a: int, b: int|
                0 <= a < b < commitments@.len() implies commitments@[a].index
                != commitments@[b].index by {
                assert(index_vector@[a] == commitments@[a].index);
                assert(index_vector@[b] == commitments@[b].index);
            }
        }
        let expected = IndividualVerifyingKey::generate_from_commitments(self.index, commitments);
        if crate::curve::point_eq(&self.share, &expected.share) {
            Ok(())
        } else {
            Err(Error::ShareVerificationError)
        }
    }

    /// Computes the verification share of participant `participant_index`
    /// from a set of accepted dealer commitments: the Lagrange-weighted sum
    /// over the dealers of their committed polynomial evaluated "in the
    /// exponent" at the participant's index.
    pub fn generate_from_commitments(
        participant_index: u32,
        commitments: &[VerifiableSecretSharingCommitment],
    ) -> (r: IndividualVerifyingKey)
        requires
            distinct_commitment_indices(commitments@),
        ensures
            r.index == participant_index,
            point_dlog(r.share) == ivk_value(commitments@, participant_index as nat),
            point_dlog(r.share) < group_order(),
    {
        let mut index_vector: Vec<u32> = Vec::new();
        let n = commitments.len();
        let mut k: usize = 0;
        while k < n
            invariant
                n == commitments@.len(),
                k <= n,
                index_vector@.len() == k,
                forall|i: int| 0 <= i < k ==> index_vector@[i] == commitments@[i].index,
            decreases n - k,
        {
            index_vector.push(vstd::slice::slice_index_get(commitments, k).index);
            k = k + 1;
        }
        proof {
            assert(index_vector@ =~= commitment_indices(commitments@));
        }
        let ghost idxs = index_vector@;
        let mut share = GroupElement::identity();
        let mut j: usize = 0;
        while j < n
            invariant
                n == commitments@.len(),
                j <= n,
                index_vector@ == idxs,
                idxs == commitment_indices(commitments@),
                distinct_commitment_indices(commitments@),
                point_dlog(share) == ivk_sum(
                    commitments@.take(j as int),
                    idxs,
                    participant_index as nat,
                ),
                point_dlog(share) < group_order(),
            decreases n - j,
        {
            let commitment = vstd::slice::slice_index_get(commitments, j);
            let evaluated = commitment.evaluate_at(participant_index);
            proof {
                assert(forall|a: int, b: int|
                    0 <= a < b < idxs.len() ==> idxs[a] != idxs[b]) by {
                    assert(forall|a: int, b: int|
                        0 <= a < b < commitments@.len() ==> commitments@[a].index
                            != commitments@[b].index);
                }
                lemma_occurrences_distinct(commitments@[j as int].index, idxs);
            }
            let coeff = match calculate_lagrange_coefficients(
                commitment.index,
                index_vector.as_slice(),
            ) {
                Ok(c) => c,
                Err(_) => {
                    // Unreachable: the index set is nonempty and distinct.
                    return vstd::pervasive::unreached();
                },
            };
            let term = evaluated.scaled(&coeff);
            let share2 = share.plus(&term);
            proof {
                let cs = commitments@;
                assert(cs.take(j as int + 1).drop_last() =~= cs.take(j as int));
                assert(cs.take(j as int + 1).last() == cs[j as int]);
                crate::arith::lemma_qmul_comm(
                    lagrange_coefficient_spec(cs[j as int].index, idxs),
                    poly_eval(cs[j as int].model(), participant_index as nat),
                );
            }
            share = share2;
            j = j + 1;
        }
        proof {
            assert(commitments@.take(n as int) =~= commitments@);
        }
        IndividualVerifyingKey { index: participant_index, share }
    }
}

impl Clone for IndividualVerifyingKey {
    fn clone(&self) -> (r: IndividualVerifyingKey)
        ensures
            r.index == self.index,
            point_dlog(r.share) == point_dlog(self.share),
    {
        IndividualVerifyingKey { index: self.index, share: self.share.clone() }
    }
}

impl PartialEq for IndividualVerifyingKey {
    fn eq(&self, other: &IndividualVerifyingKey) -> (r: bool) {
        self.index == other.index && crate::curve::point_eq(&self.share, &other.share)
    }
}

impl Eq for IndividualVerifyingKey {}

impl vstd::std_specs::cmp::PartialEqSpecImpl for IndividualVerifyingKey {
    open spec fn obeys_eq_spec() -> bool {
        true
    }

    open spec fn eq_spec(&self, other: &IndividualVerifyingKey) -> bool {
        self.index == other.index && point_dlog(self.share) == point_dlog(other.share)
    }
}

/// A secret key with which one participant signs under the group's key.
pub struct IndividualSigningKey {
    /// The participant index to which this key belongs.
    pub index: u32,
    /// The participant's long-lived secret share of the group signing key.
    pub key: Scalar,
}

impl IndividualSigningKey {
    /// Serializes this key as the big-endian index followed by the
    /// canonical scalar encoding.
    pub fn to_bytes(&self) -> (r: FrostResult<Vec<u8>>)
        ensures
            r is Ok,
            r matches Ok(b) ==> b@ == u32_be(self.index) + scalar_enc(scalar_of(self.key))
                && b@.len() == 36,
    {
        let mut bytes: Vec<u8> = Vec::new();
        push_u32_be(&mut bytes, self.index);
        let scalar_bytes = scalar_to_bytes(&self.key);
        push_bytes(&mut bytes, scalar_bytes.as_slice());
        proof {
            assert(bytes@ =~= u32_be(self.index) + scalar_enc(scalar_of(self.key)));
        }
        Ok(bytes)
    }

    /// Parses a key from the encoding produced by `to_bytes`.
    pub fn from_bytes(bytes: &[u8]) -> (r: FrostResult<IndividualSigningKey>)
        ensures
            r matches Ok(k) ==> scalar_of(k.key) < group_order() && u32_be(k.index) + scalar_enc(
                scalar_of(k.key),
            ) == bytes@,
            forall|i: u32, v: nat|
                v < group_order() && bytes@.len() == 36 && u32_be(i) + scalar_enc(v) == bytes@
                    ==> r is Ok && r.unwrap().index == i && scalar_of(r.unwrap().key) == v,
            r matches Err(e) ==> e is DeserializationError,
    {
        if bytes.len() != 36 {
            return Err(Error::DeserializationError);
        }
        let index = read_u32_be(bytes, 0);
        let scalar_slice = vstd::slice::slice_subrange(bytes, 4, 36);
        match scalar_from_bytes(scalar_slice) {
            Some(key) => {
                let r = IndividualSigningKey { index, key };
                proof {
                    assert(bytes@ =~= bytes@.subrange(0, 4) + bytes@.subrange(4, 36));
                    assert forall|i: u32, v: nat|
                        v < group_order() && bytes@.len() == 36 && u32_be(i) + scalar_enc(v)
                            == bytes@ implies r.index == i && scalar_of(r.key) == v by {
                        assert((u32_be(i) + scalar_enc(v)).subrange(0, 4) =~= u32_be(i));
                        assert((u32_be(i) + scalar_enc(v)).subrange(4, 36) =~= scalar_enc(v));
                        crate::codec::lemma_u32_be_injective(index, i);
                    }
                }
                Ok(r)
            },
            None => {
                proof {
                    assert forall|i: u32, v: nat|
                        v < group_order() && bytes@.len() == 36 && u32_be(i) + scalar_enc(v)
                            == bytes@ implies false by {
                        assert((u32_be(i) + scalar_enc(v)).subrange(4, 36) =~= scalar_enc(v));
                        assert(scalar_slice@ == scalar_enc(v));
                    }
                }
                Err(Error::DeserializationError)
            },
        }
    }

    /// Derives the corresponding public verification share `s_i · B`.
    pub fn to_public(&self) -> (r: IndividualVerifyingKey)
        ensures
            r.index == self.index,
            point_dlog(r.share) == scalar_of(self.key) % group_order(),
    {
        let share = GroupElement::basepoint_mul(&self.key);
        IndividualVerifyingKey { index: self.index, share }
    }

    /// Overwrites the secret scalar with zero.
    pub fn zeroize(&mut self)
        ensures
            scalar_of(final(self).key) == 0,
            final(self).index == old(self).index,
    {
        scalar_zeroize(&mut self.key);
    }
}

impl Clone for IndividualSigningKey {
    fn clone(&self) -> (r: IndividualSigningKey)
        ensures
            r.index == self.index,
            scalar_of(r.key) == scalar_of(self.key),
    {
        IndividualSigningKey { index: self.index, key: self.key.clone() }
    }
}

impl PartialEq for IndividualSigningKey {
    fn eq(&self, other: &IndividualSigningKey) -> (r: bool) {
        self.index == other.index && crate::curve::scalar_eq(&self.key, &other.key)
    }
}

impl Eq for IndividualSigningKey {}

impl vstd::std_specs::cmp::PartialEqSpecImpl for IndividualSigningKey {
    open spec fn obeys_eq_spec() -> bool {
        true
    }

    open spec fn eq_spec(&self, other: &IndividualSigningKey) -> bool {
        self.index == other.index && scalar_of(self.key) == scalar_of(other.key)
    }
}

/// The public key against which a threshold of the group signs.
pub struct GroupKey {
    /// The group's public point.
    pub key: GroupElement,
}

impl GroupKey {
    /// Wraps a group element as a group key.
    pub fn new(key: GroupElement) -> (r: GroupKey)
        ensures
            point_dlog(r.key) == point_dlog(key),
    {
        GroupKey { key }
    }

    /// Serializes this key to its canonical 33-byte point encoding.
    pub fn to_bytes(&self) -> (r: FrostResult<Vec<u8>>)
        ensures
            r is Ok,
            r matches Ok(b) ==> b@ == point_enc(point_dlog(self.key)) && b@.len() == 33,
    {
        Ok(point_to_bytes(&self.key))
    }

    /// Parses a key from its canonical point encoding, rejecting anything
    /// that does not re-encode to the same bytes.
    pub fn from_bytes(bytes: &[u8]) -> (r: FrostResult<GroupKey>)
        ensures
            r matches Ok(k) ==> point_dlog(k.key) < group_order() && point_enc(point_dlog(k.key))
                == bytes@,
            forall|d: nat|
                d < group_order() && bytes@.len() == 33 && point_enc(d) == bytes@ ==> r is Ok
                    && point_dlog(r.unwrap().key) == d,
            r matches Err(e) ==> e is DeserializationError,
    {
        match decode_canonical_point(bytes) {
            Some(p) => Ok(GroupKey { key: p }),
            None => Err(Error::DeserializationError),
        }
    }
}

impl Clone for GroupKey {
    fn clone(&self) -> (r: GroupKey)
        ensures
            point_dlog(r.key) == point_dlog(self.key),
    {
        GroupKey { key: self.key.clone() }
    }
}

impl PartialEq for GroupKey {
    fn eq(&self, other: &GroupKey) -> (r: bool) {
        crate::curve::point_eq(&self.key, &other.key)
    }
}

impl Eq for GroupKey {}

impl vstd::std_specs::cmp::PartialEqSpecImpl for GroupKey {
    open spec fn obeys_eq_spec() -> bool {
        true
    }

    open spec fn eq_spec(&self, other: &GroupKey) -> bool {
        point_dlog(self.key) == point_dlog(other.key)
    }
}

} // verus!
