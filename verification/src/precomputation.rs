//! Precomputed (hiding, binding) nonce commitments for one-round signing.
//!
//! A signer publishes a list of commitment pairs ahead of time and keeps
//! the committed nonces secret; each signing session consumes exactly one
//! pair, which is then dropped from the secret list and wiped.

use vstd::prelude::*;

use crate::codec::bytes_equal;
use crate::codec::push_bytes;
use crate::curve::group_order;
use crate::curve::point_dlog;
use crate::curve::point_enc;
use crate::curve::point_to_bytes;
use crate::curve::scalar_enc;
use crate::curve::scalar_from_bytes;
use crate::curve::scalar_of;
use crate::curve::scalar_to_bytes;
use crate::curve::scalar_zeroize;
use crate::curve::GroupElement;
use crate::curve::Scalar;
use crate::Error;
use crate::FrostResult;

verus! {

/// A secret nonce and the commitment `secret · B` to it.
pub struct Commitment {
    /// The secret nonce.
    pub secret: Scalar,
    /// The public commitment.
    pub commit: GroupElement,
}

impl Commitment {
    /// The residue of the nonce and the logarithm of the commitment.
    pub open spec fn model(self) -> (nat, nat) {
        (scalar_of(self.secret), point_dlog(self.commit))
    }

    /// The canonical encoding: the scalar followed by the point.
    pub open spec fn enc(self) -> Seq<u8> {
        scalar_enc(scalar_of(self.secret)) + point_enc(point_dlog(self.commit))
    }

    /// Serializes this commitment pair to 65 bytes.
    pub fn to_bytes(&self) -> (r: FrostResult<Vec<u8>>)
        ensures
            r is Ok,
            r matches Ok(b) ==> b@ == self.enc() && b@.len() == 65,
    {
        let mut bytes = scalar_to_bytes(&self.secret);
        let point_bytes = point_to_bytes(&self.commit);
        push_bytes(&mut bytes, point_bytes.as_slice());
        Ok(bytes)
    }

    /// Parses a commitment pair from the encoding of `to_bytes`.
    pub fn from_bytes(bytes: &[u8]) -> (r: FrostResult<Commitment>)
        ensures
            r matches Ok(c) ==> c.enc() == bytes@ && scalar_of(c.secret) < group_order()
                && point_dlog(c.commit) < group_order(),
            r matches Err(e) ==> e is DeserializationError,
            forall|v: nat, d: nat|
                v < group_order() && d < group_order() && bytes@.len() == 65 && scalar_enc(
                    v,
                ).len() == 32 && bytes@ == scalar_enc(v) + point_enc(d) ==> r is Ok && scalar_of(
                    r.unwrap().secret,
                ) == v && point_dlog(r.unwrap().commit) == d,
    {
        if bytes.len() != 65 {
            return Err(Error::DeserializationError);
        }
        let scalar_slice = vstd::slice::slice_subrange(bytes, 0, 32);
        let point_slice = vstd::slice::slice_subrange(bytes, 32, 65);
        proof {
            assert forall|v: nat, d: nat|
                v < group_order() && d < group_order() && bytes@.len() == 65 && scalar_enc(
                    v,
                ).len() == 32 && bytes@ == scalar_enc(v) + point_enc(d) implies scalar_slice@
                == scalar_enc(v) && point_slice@ == point_enc(d) by {
                assert((scalar_enc(v) + point_enc(d)).subrange(0, 32) =~= scalar_enc(v));
                assert((scalar_enc(v) + point_enc(d)).subrange(32, 65) =~= point_enc(d));
            }
        }
        let secret = match scalar_from_bytes(scalar_slice) {
            Some(s) => s,
            None => {
                return Err(Error::DeserializationError);
            },
        };
        let commit = match crate::keys::decode_canonical_point(point_slice) {
            Some(p) => p,
            None => {
                return Err(Error::DeserializationError);
            },
        };
        let r = Commitment { secret, commit };
        proof {
            assert(bytes@ =~= bytes@.subrange(0, 32) + bytes@.subrange(32, 65));
        }
        Ok(r)
    }

    /// Overwrites the secret nonce with zero and resets the commitment to
    /// the identity.
    pub fn zeroize(&mut self)
        ensures
            final(self).model() == (0nat, 0nat),
    {
        scalar_zeroize(&mut self.secret);
        self.commit = GroupElement::identity();
    }
}

impl Clone for Commitment {
    fn clone(&self) -> (r: Commitment)
        ensures
            r.model() == self.model(),
    {
        Commitment { secret: self.secret.clone(), commit: self.commit.clone() }
    }
}

impl PartialEq for Commitment {
    /// Both halves are compared unconditionally (Verus has no
    /// non-short-circuit `&` on bools; the two comparisons run before the
    /// combine, so neither is skipped).
    fn eq(&self, other: &Commitment) -> (r: bool) {
        let secrets = crate::curve::scalar_eq(&self.secret, &other.secret);
        let commits = crate::curve::point_eq(&self.commit, &other.commit);
        secrets && commits
    }
}

impl Eq for Commitment {}

impl vstd::std_specs::cmp::PartialEqSpecImpl for Commitment {
    open spec fn obeys_eq_spec() -> bool {
        true
    }

    open spec fn eq_spec(&self, other: &Commitment) -> bool {
        self.model() == other.model()
    }
}

/// A fresh pair of secret nonces `(d, e)`.
pub struct NoncePair(pub Scalar, pub Scalar);

impl NoncePair {
    /// Draws a fresh nonce pair from the system's entropy source.
    pub fn new() -> (r: NoncePair)
        ensures
            scalar_of(r.0) < group_order(),
            scalar_of(r.1) < group_order(),
    {
        NoncePair(Scalar::random(), Scalar::random())
    }
}

/// A precomputed commitment share: the hiding pair `(d, D)` and the
/// binding pair `(e, E)`.
pub struct CommitmentShare {
    /// The hiding commitment pair.
    pub hiding: Commitment,
    /// The binding commitment pair.
    pub binding: Commitment,
}

impl CommitmentShare {
    /// The models of the hiding and binding halves.
    pub open spec fn model(self) -> ((nat, nat), (nat, nat)) {
        (self.hiding.model(), self.binding.model())
    }

    /// The canonical encoding: hiding half, then binding half.
    pub open spec fn enc(self) -> Seq<u8> {
        self.hiding.enc() + self.binding.enc()
    }

    /// Commits to a nonce pair: `(d, d · B)` and `(e, e · B)`.
    pub fn from_nonces(pair: NoncePair) -> (r: CommitmentShare)
        ensures
            scalar_of(r.hiding.secret) == scalar_of(pair.0),
            scalar_of(r.binding.secret) == scalar_of(pair.1),
            point_dlog(r.hiding.commit) == scalar_of(pair.0) % group_order(),
            point_dlog(r.binding.commit) == scalar_of(pair.1) % group_order(),
    {
        let x = GroupElement::basepoint_mul(&pair.0);
        let y = GroupElement::basepoint_mul(&pair.1);
        CommitmentShare {
            hiding: Commitment { secret: pair.0, commit: x },
            binding: Commitment { secret: pair.1, commit: y },
        }
    }

    /// The published halves `(D, E)` of this share.
    pub fn publish(&self) -> (r: (GroupElement, GroupElement))
        ensures
            point_dlog(r.0) == point_dlog(self.hiding.commit),
            point_dlog(r.1) == point_dlog(self.binding.commit),
    {
        (self.hiding.commit.clone(), self.binding.commit.clone())
    }

    /// Serializes this share to 130 bytes.
    pub fn to_bytes(&self) -> (r: FrostResult<Vec<u8>>)
        ensures
            r is Ok,
            r matches Ok(b) ==> b@ == self.enc() && b@.len() == 130,
    {
        let mut bytes = match self.hiding.to_bytes() {
            Ok(b) => b,
            Err(e) => {
                return Err(e);
            },
        };
        let binding_bytes = match self.binding.to_bytes() {
            Ok(b) => b,
            Err(e) => {
                return Err(e);
            },
        };
        push_bytes(&mut bytes, binding_bytes.as_slice());
        Ok(bytes)
    }

    /// Parses a share from the encoding of `to_bytes`.
    pub fn from_bytes(bytes: &[u8]) -> (r: FrostResult<CommitmentShare>)
        ensures
            r matches Ok(c) ==> c.enc() == bytes@,
            r matches Err(e) ==> e is DeserializationError,
            forall|v1: nat, d1: nat, v2: nat, d2: nat|
                v1 < group_order() && d1 < group_order() && v2 < group_order() && d2
                    < group_order() && bytes@.len() == 130 && scalar_enc(v1).len() == 32
                    && point_enc(d1).len() == 33 && scalar_enc(v2).len() == 32 && bytes@
                    == scalar_enc(v1) + point_enc(d1) + scalar_enc(v2) + point_enc(d2)
                    ==> r is Ok && r.unwrap().model() == (((v1, d1)), ((v2, d2))),
    {
        if bytes.len() != 130 {
            return Err(Error::DeserializationError);
        }
        let hiding_slice = vstd::slice::slice_subrange(bytes, 0, 65);
        let binding_slice = vstd::slice::slice_subrange(bytes, 65, 130);
        proof {
            assert forall|v1: nat, d1: nat, v2: nat, d2: nat|
                v1 < group_order() && d1 < group_order() && v2 < group_order() && d2
                    < group_order() && bytes@.len() == 130 && scalar_enc(v1).len() == 32
                    && point_enc(d1).len() == 33 && scalar_enc(v2).len() == 32 && bytes@
                    == scalar_enc(v1) + point_enc(d1) + scalar_enc(v2) + point_enc(d2) implies
                hiding_slice@ == scalar_enc(v1) + point_enc(d1) && binding_slice@ == scalar_enc(
                    v2,
                ) + point_enc(d2) by {
                let whole = scalar_enc(v1) + point_enc(d1) + scalar_enc(v2) + point_enc(d2);
                assert(whole.subrange(0, 65) =~= scalar_enc(v1) + point_enc(d1));
                assert(whole.subrange(65, 130) =~= scalar_enc(v2) + point_enc(d2));
            }
        }
        let hiding = match Commitment::from_bytes(hiding_slice) {
            Ok(c) => c,
            Err(e) => {
                return Err(e);
            },
        };
        let binding = match Commitment::from_bytes(binding_slice) {
            Ok(c) => c,
            Err(e) => {
                return Err(e);
            },
        };
        let r = CommitmentShare { hiding, binding };
        proof {
            assert(bytes@ =~= bytes@.subrange(0, 65) + bytes@.subrange(65, 130));
        }
        Ok(r)
    }

    /// Wipes both halves of this share.
    pub fn zeroize(&mut self)
        ensures
            final(self).model() == (((0nat, 0nat)), ((0nat, 0nat))),
    {
        self.hiding.zeroize();
        self.binding.zeroize();
    }
}

impl Clone for CommitmentShare {
    fn clone(&self) -> (r: CommitmentShare)
        ensures
            r.model() == self.model(),
    {
        CommitmentShare { hiding: self.hiding.clone(), binding: self.binding.clone() }
    }
}

impl PartialEq for CommitmentShare {
    /// Both halves are compared unconditionally (the two comparisons run
    /// before the combine, so neither is skipped).
    fn eq(&self, other: &CommitmentShare) -> (r: bool) {
        let hidings = self.hiding.eq(&other.hiding);
        let bindings = self.binding.eq(&other.binding);
        hidings && bindings
    }
}

impl Eq for CommitmentShare {}

impl vstd::std_specs::cmp::PartialEqSpecImpl for CommitmentShare {
    open spec fn obeys_eq_spec() -> bool {
        true
    }

    open spec fn eq_spec(&self, other: &CommitmentShare) -> bool {
        self.model() == other.model()
    }
}

/// How many entries of `s` have the same model as `c`.
pub open spec fn count_matching(s: Seq<CommitmentShare>, c: CommitmentShare) -> nat
    decreases s.len(),
{
    if s.len() == 0 {
        0
    } else {
        count_matching(s.drop_last(), c) + (if s.last().model() == c.model() {
            1nat
        } else {
            0nat
        })
    }
}

/// A match somewhere in the sequence makes the count positive.
proof fn lemma_count_at_least_one(s: Seq<CommitmentShare>, c: CommitmentShare, i: int)
    requires
        0 <= i < s.len(),
        s[i].model() == c.model(),
    ensures
        count_matching(s, c) >= 1,
    decreases s.len(),
{
    if i + 1 < s.len() {
        lemma_count_at_least_one(s.drop_last(), c, i);
    }
}

/// Two matches at distinct positions make the count at least two.
proof fn lemma_count_at_least_two(s: Seq<CommitmentShare>, c: CommitmentShare, i: int, j: int)
    requires
        0 <= i < j < s.len(),
        s[i].model() == c.model(),
        s[j].model() == c.model(),
    ensures
        count_matching(s, c) >= 2,
    decreases s.len(),
{
    if j + 1 < s.len() {
        lemma_count_at_least_two(s.drop_last(), c, i, j);
    } else {
        lemma_count_at_least_one(s.drop_last(), c, i);
    }
}

/// The secret halves of a signer's precomputed commitment shares.
pub struct SecretCommitmentShareList {
    /// The secret commitment shares.
    pub commitments: Vec<CommitmentShare>,
}

impl SecretCommitmentShareList {
    /// Removes the last share equal to `share` from the list, if one is
    /// present, and wipes it.  Every other element is retained, in order;
    /// an unknown share changes nothing; if the match was unique, no
    /// element equal to `share` remains.
    pub fn drop_share(&mut self, share: CommitmentShare)
        ensures
            count_matching(old(self).commitments@, share) == 0 ==> final(self).commitments@ == old(
                self,
            ).commitments@,
            count_matching(old(self).commitments@, share) > 0 ==> exists|m: int|
                0 <= m < old(self).commitments@.len() && (#[trigger] old(
                    self,
                ).commitments@[m]).model() == share.model() && final(self).commitments@ == old(
                    self,
                ).commitments@.remove(m) && (forall|k: int|
                    m < k < old(self).commitments@.len() ==> old(self).commitments@[k].model()
                        != share.model()),
            count_matching(old(self).commitments@, share) > 0 ==> final(self).commitments@.len()
                == old(self).commitments@.len() - 1,
            count_matching(old(self).commitments@, share) <= 1 ==> forall|i: int|
                0 <= i < final(self).commitments@.len() ==> final(self).commitments@[i].model()
                    != share.model(),
    {
        let n = self.commitments.len();
        let mut found: usize = n;
        let mut i: usize = 0;
        while i < n
            invariant
                n == self.commitments@.len(),
                i <= n,
                found <= n,
                found == n ==> count_matching(self.commitments@.take(i as int), share) == 0,
                found < n ==> found < i && self.commitments@[found as int].model()
                    == share.model(),
                found < n ==> forall|k: int|
                    found < k < i ==> self.commitments@[k].model() != share.model(),
            decreases n - i,
        {
            proof {
                assert(self.commitments@.take(i as int + 1).drop_last() =~= self.commitments@.take(
                    i as int,
                ));
            }
            if self.commitments[i].eq(&share) {
                found = i;
            } else {
                proof {
                    if found == n {
                        assert(count_matching(self.commitments@.take(i as int + 1), share) == 0);
                    }
                }
            }
            i = i + 1;
        }
        proof {
            assert(self.commitments@.take(n as int) =~= self.commitments@);
        }
        if found < n {
            let mut removed = self.commitments.remove(found);
            proof {
                let olds = old(self).commitments@;
                lemma_count_at_least_one(olds, share, found as int);
                assert(olds[found as int].model() == share.model() && self.commitments@
                    == olds.remove(found as int) && (forall|k: int|
                    found < k < olds.len() ==> olds[k].model() != share.model()));
                if count_matching(olds, share) <= 1 {
                    assert forall|i2: int|
                        0 <= i2 < self.commitments@.len() implies self.commitments@[i2].model()
                        != share.model() by {
                        if i2 < found {
                            if olds[i2].model() == share.model() {
                                lemma_count_at_least_two(olds, share, i2, found as int);
                            }
                        } else {
                            assert(self.commitments@[i2] == olds[i2 + 1]);
                        }
                    }
                }
            }
            removed.zeroize();
        } else {
            proof {
                assert forall|i2: int|
                    0 <= i2 < self.commitments@.len() implies self.commitments@[i2].model()
                    != share.model() by {
                    if self.commitments@[i2].model() == share.model() {
                        lemma_count_at_least_one(self.commitments@, share, i2);
                    }
                }
            }
        }
        let mut consumed = share;
        consumed.zeroize();
    }
}

/// The concatenated encodings of a sequence of commitment shares.
pub open spec fn share_seq_enc(s: Seq<CommitmentShare>) -> Seq<u8>
    decreases s.len(),
{
    if s.len() == 0 {
        Seq::empty()
    } else {
        share_seq_enc(s.drop_last()) + s.last().enc()
    }
}

impl SecretCommitmentShareList {
    /// The canonical encoding: a length prefix followed by the shares.
    pub open spec fn enc(self) -> Seq<u8> {
        crate::codec::u64_le(self.commitments@.len() as u64) + share_seq_enc(self.commitments@)
    }

    /// Serializes this list.
    pub fn to_bytes(&self) -> (r: FrostResult<Vec<u8>>)
        ensures
            r is Ok,
            r matches Ok(b) ==> b@ == self.enc(),
    {
        let mut bytes: Vec<u8> = Vec::new();
        crate::codec::push_u64_le(&mut bytes, self.commitments.len() as u64);
        let n = self.commitments.len();
        let mut i: usize = 0;
        while i < n
            invariant
                n == self.commitments@.len(),
                i <= n,
                bytes@ == crate::codec::u64_le(n as u64) + share_seq_enc(
                    self.commitments@.take(i as int),
                ),
            decreases n - i,
        {
            let share_bytes = match self.commitments[i].to_bytes() {
                Ok(b) => b,
                Err(e) => {
                    return Err(e);
                },
            };
            push_bytes(&mut bytes, share_bytes.as_slice());
            proof {
                assert(self.commitments@.take(i as int + 1).drop_last() =~= self.commitments@.take(
                    i as int,
                ));
                assert(bytes@ =~= crate::codec::u64_le(n as u64) + share_seq_enc(
                    self.commitments@.take(i as int + 1),
                ));
            }
            i = i + 1;
        }
        proof {
            assert(self.commitments@.take(n as int) =~= self.commitments@);
        }
        Ok(bytes)
    }

    /// Parses a list from the encoding of `to_bytes`.
    pub fn from_bytes(bytes: &[u8]) -> (r: FrostResult<SecretCommitmentShareList>)
        ensures
            r matches Ok(l) ==> l.enc() == bytes@,
            r matches Err(e) ==> e is DeserializationError,
    {
        let total = bytes.len();
        if total < 8 {
            return Err(Error::DeserializationError);
        }
        let count = crate::codec::read_u64_le(bytes, 0);
        let mut commitments: Vec<CommitmentShare> = Vec::new();
        let mut pos: usize = 8;
        let mut taken: u64 = 0;
        while taken < count
            invariant
                total == bytes@.len(),
                8 <= pos <= total,
                taken <= count,
                crate::codec::u64_le(count) == bytes@.subrange(0, 8),
                commitments@.len() == taken,
                bytes@.subrange(0, pos as int) == crate::codec::u64_le(count) + share_seq_enc(
                    commitments@,
                ),
            decreases count - taken,
        {
            if total - pos < 130 {
                return Err(Error::DeserializationError);
            }
            let s_slice = vstd::slice::slice_subrange(bytes, pos, pos + 130);
            let share = match CommitmentShare::from_bytes(s_slice) {
                Ok(s) => s,
                Err(e) => {
                    return Err(e);
                },
            };
            let ghost prev = commitments@;
            commitments.push(share);
            proof {
                assert(commitments@.drop_last() =~= prev);
                assert(bytes@.subrange(0, pos as int + 130) =~= bytes@.subrange(0, pos as int)
                    + bytes@.subrange(pos as int, pos as int + 130));
                assert(bytes@.subrange(0, pos as int + 130) =~= crate::codec::u64_le(count)
                    + share_seq_enc(commitments@));
            }
            pos = pos + 130;
            taken = taken + 1;
        }
        if pos != total {
            return Err(Error::DeserializationError);
        }
        let r = SecretCommitmentShareList { commitments };
        proof {
            assert(bytes@.subrange(0, total as int) =~= bytes@);
        }
        Ok(r)
    }
}

impl Clone for SecretCommitmentShareList {
    fn clone(&self) -> (r: SecretCommitmentShareList)
        ensures
            r.commitments@.len() == self.commitments@.len(),
            forall|i: int|
                0 <= i < self.commitments@.len() ==> r.commitments@[i].model()
                    == self.commitments@[i].model(),
    {
        let n = self.commitments.len();
        let mut commitments: Vec<CommitmentShare> = Vec::new();
        let mut k: usize = 0;
        while k < n
            invariant
                n == self.commitments@.len(),
                k <= n,
                commitments@.len() == k,
                forall|i: int|
                    0 <= i < k ==> commitments@[i].model() == self.commitments@[i].model(),
            decreases n - k,
        {
            commitments.push(self.commitments[k].clone());
            k = k + 1;
        }
        SecretCommitmentShareList { commitments }
    }
}

/// The published halves of a signer's precomputed commitment shares.
pub struct PublicCommitmentShareList {
    /// The participant's index.
    pub participant_index: u32,
    /// The published `(D, E)` pairs.
    pub commitments: Vec<(GroupElement, GroupElement)>,
}

/// The concatenated encodings of the published `(D, E)` pairs.
pub open spec fn pairs_enc(s: Seq<(GroupElement, GroupElement)>) -> Seq<u8>
    decreases s.len(),
{
    if s.len() == 0 {
        Seq::empty()
    } else {
        pairs_enc(s.drop_last()) + point_enc(point_dlog(s.last().0)) + point_enc(
            point_dlog(s.last().1),
        )
    }
}

impl PublicCommitmentShareList {
    /// The canonical encoding: the owner's index, a length prefix, and the
    /// published pairs.
    pub open spec fn enc(self) -> Seq<u8> {
        crate::codec::u32_be(self.participant_index) + crate::codec::u64_le(
            self.commitments@.len() as u64,
        ) + pairs_enc(self.commitments@)
    }

    /// Serializes this list.
    pub fn to_bytes(&self) -> (r: FrostResult<Vec<u8>>)
        ensures
            r is Ok,
            r matches Ok(b) ==> b@ == self.enc(),
    {
        let mut bytes: Vec<u8> = Vec::new();
        crate::codec::push_u32_be(&mut bytes, self.participant_index);
        crate::codec::push_u64_le(&mut bytes, self.commitments.len() as u64);
        let n = self.commitments.len();
        let mut i: usize = 0;
        while i < n
            invariant
                n == self.commitments@.len(),
                i <= n,
                bytes@ == crate::codec::u32_be(self.participant_index) + crate::codec::u64_le(
                    n as u64,
                ) + pairs_enc(self.commitments@.take(i as int)),
            decreases n - i,
        {
            let d_bytes = point_to_bytes(&self.commitments[i].0);
            push_bytes(&mut bytes, d_bytes.as_slice());
            let e_bytes = point_to_bytes(&self.commitments[i].1);
            push_bytes(&mut bytes, e_bytes.as_slice());
            proof {
                assert(self.commitments@.take(i as int + 1).drop_last() =~= self.commitments@.take(
                    i as int,
                ));
                assert(bytes@ =~= crate::codec::u32_be(self.participant_index)
                    + crate::codec::u64_le(n as u64) + pairs_enc(
                    self.commitments@.take(i as int + 1),
                ));
            }
            i = i + 1;
        }
        proof {
            assert(self.commitments@.take(n as int) =~= self.commitments@);
        }
        Ok(bytes)
    }

    /// Parses a list from the encoding of `to_bytes`, accepting only
    /// canonical point encodings.
    pub fn from_bytes(bytes: &[u8]) -> (r: FrostResult<PublicCommitmentShareList>)
        ensures
            r matches Ok(l) ==> l.enc() == bytes@,
            r matches Err(e) ==> e is DeserializationError,
    {
        let total = bytes.len();
        if total < 12 {
            return Err(Error::DeserializationError);
        }
        let participant_index = crate::codec::read_u32_be(bytes, 0);
        let count = crate::codec::read_u64_le(bytes, 4);
        let mut commitments: Vec<(GroupElement, GroupElement)> = Vec::new();
        let mut pos: usize = 12;
        let mut taken: u64 = 0;
        while taken < count
            invariant
                total == bytes@.len(),
                12 <= pos <= total,
                taken <= count,
                crate::codec::u32_be(participant_index) == bytes@.subrange(0, 4),
                crate::codec::u64_le(count) == bytes@.subrange(4, 12),
                commitments@.len() == taken,
                bytes@.subrange(0, pos as int) == crate::codec::u32_be(participant_index)
                    + crate::codec::u64_le(count) + pairs_enc(commitments@),
            decreases count - taken,
        {
            if total - pos < 66 {
                return Err(Error::DeserializationError);
            }
            let d_slice = vstd::slice::slice_subrange(bytes, pos, pos + 33);
            let e_slice = vstd::slice::slice_subrange(bytes, pos + 33, pos + 66);
            let d = match crate::keys::decode_canonical_point(d_slice) {
                Some(p) => p,
                None => {
                    return Err(Error::DeserializationError);
                },
            };
            let e = match crate::keys::decode_canonical_point(e_slice) {
                Some(p) => p,
                None => {
                    return Err(Error::DeserializationError);
                },
            };
            let ghost prev = commitments@;
            commitments.push((d, e));
            proof {
                assert(commitments@.drop_last() =~= prev);
                assert(bytes@.subrange(0, pos as int + 66) =~= bytes@.subrange(0, pos as int)
                    + bytes@.subrange(pos as int, pos as int + 33) + bytes@.subrange(
                    pos as int + 33,
                    pos as int + 66,
                ));
                assert(bytes@.subrange(0, pos as int + 66) =~= crate::codec::u32_be(
                    participant_index,
                ) + crate::codec::u64_le(count) + pairs_enc(commitments@));
            }
            pos = pos + 66;
            taken = taken + 1;
        }
        if pos != total {
            return Err(Error::DeserializationError);
        }
        let r = PublicCommitmentShareList { participant_index, commitments };
        proof {
            assert(bytes@.subrange(0, total as int) =~= bytes@);
        }
        Ok(r)
    }
}

/// Precomputes `number_of_shares` commitment shares for the signer with
/// index `participant_index`: each share is a fresh uniform nonce pair with
/// its basepoint commitments.  The public list mirrors the secret list
/// entry by entry.
pub fn generate_commitment_share_lists(participant_index: u32, number_of_shares: usize) -> (r: (
    PublicCommitmentShareList,
    SecretCommitmentShareList,
))
    ensures
        r.0.participant_index == participant_index,
        r.0.commitments@.len() == number_of_shares,
        r.1.commitments@.len() == number_of_shares,
        forall|i: int|
            0 <= i < number_of_shares ==> point_dlog(r.0.commitments@[i].0) == point_dlog(
                r.1.commitments@[i].hiding.commit,
            ) && point_dlog(r.0.commitments@[i].1) == point_dlog(r.1.commitments@[i].binding.commit),
        forall|i: int|
            0 <= i < number_of_shares ==> point_dlog(r.1.commitments@[i].hiding.commit)
                == scalar_of(r.1.commitments@[i].hiding.secret) % group_order() && point_dlog(
                r.1.commitments@[i].binding.commit,
            ) == scalar_of(r.1.commitments@[i].binding.secret) % group_order(),
{
    let mut secret: Vec<CommitmentShare> = Vec::new();
    let mut published: Vec<(GroupElement, GroupElement)> = Vec::new();
    let mut k: usize = 0;
    while k < number_of_shares
        invariant
            k <= number_of_shares,
            secret@.len() == k,
            published@.len() == k,
            forall|i: int|
                0 <= i < k ==> point_dlog(published@[i].0) == point_dlog(secret@[i].hiding.commit)
                    && point_dlog(published@[i].1) == point_dlog(secret@[i].binding.commit),
            forall|i: int|
                0 <= i < k ==> point_dlog(secret@[i].hiding.commit) == scalar_of(
                    secret@[i].hiding.secret,
                ) % group_order() && point_dlog(secret@[i].binding.commit) == scalar_of(
                    secret@[i].binding.secret,
                ) % group_order(),
        decreases number_of_shares - k,
    {
        let share = CommitmentShare::from_nonces(NoncePair::new());
        let pair = share.publish();
        secret.push(share);
        published.push(pair);
        k = k + 1;
    }
    (
        PublicCommitmentShareList { participant_index, commitments: published },
        SecretCommitmentShareList { commitments: secret },
    )
}

} // verus!
