//! The concrete cyclic group and scalar field used by the protocols, and
//! the trusted wrappers around the `ark-ec` / `ark-ff` arithmetic on them.
//!
//! The group is secp256k1, written additively, with basepoint `B` and prime
//! order `q` ([`group_order`]).  Because the cofactor is one, every group
//! element is a unique multiple of `B`; the abstraction [`point_dlog`] maps
//! an element to that multiple, and [`scalar_of`] maps a scalar to its
//! canonical residue modulo `q`.  The two carrier types hold their
//! `ark-secp256k1` value in a field that Verus never looks into; every
//! wrapper below states the effect of the wrapped call on the two models,
//! and nothing else in the crate is trusted.

use vstd::prelude::*;

use ark_ec::Group;
use ark_ff::field_hashers::{DefaultFieldHasher, HashToField};
use ark_ff::{Field, UniformRand, Zero};
use ark_serialize::{CanonicalDeserialize, CanonicalSerialize};
use rand::rngs::OsRng;
use sha2::{Digest, Sha256};
use zeroize::Zeroize;

verus! {

/// An element of the scalar field of secp256k1.
#[verifier::external_body]
pub struct Scalar {
    inner: ark_secp256k1::Fr,
}

/// An element of the secp256k1 group, in projective coordinates.
#[verifier::external_body]
pub struct GroupElement {
    inner: ark_secp256k1::Projective,
}

impl Clone for Scalar {
    /// Relies on `Clone` for `ark_ff::Fp`: the copy holds the same residue.
    #[verifier::external_body]
    fn clone(&self) -> (r: Scalar)
        ensures
            scalar_of(r) == scalar_of(*self),
    {
        Scalar { inner: self.inner }
    }
}

impl Clone for GroupElement {
    /// Relies on `Clone` for the projective group: the copy is the same element.
    #[verifier::external_body]
    fn clone(&self) -> (r: GroupElement)
        ensures
            point_dlog(r) == point_dlog(*self),
    {
        GroupElement { inner: self.inner }
    }
}

/// The prime order `q` of the secp256k1 group and of its scalar field.
pub open spec fn group_order() -> nat {
    0xFFFFFFFFFFFFFFFFFFFFFFFFFFFFFFFEBAAEDCE6AF48A03BBFD25E8CD0364141nat
}

/// The canonical residue in `[0, q)` that a scalar holds.
pub uninterp spec fn scalar_of(s: Scalar) -> nat;

/// The discrete logarithm of a group element with respect to the basepoint.
/// Well defined because the group is cyclic of prime order with cofactor one.
pub uninterp spec fn point_dlog(p: GroupElement) -> nat;

/// The 32-byte canonical little-endian encoding of the scalar with residue `v`.
pub uninterp spec fn scalar_enc(v: nat) -> Seq<u8>;

/// The 33-byte canonical compressed encoding of the group element with
/// discrete logarithm `d`.
pub uninterp spec fn point_enc(d: nat) -> Seq<u8>;

/// The 32-byte SHA-256 digest of a byte string.
pub uninterp spec fn sha256_of(data: Seq<u8>) -> Seq<u8>;

/// The residue returned by hashing `msg` to the scalar field under the
/// domain-separation string `ctx`.
pub uninterp spec fn hash_to_scalar_of(ctx: Seq<u8>, msg: Seq<u8>) -> nat;

/// The domain-separation context of this ciphersuite instantiation.
pub open spec fn spec_context_string() -> Seq<u8> {
    seq![70u8, 82u8, 79u8, 83u8, 84u8, 45u8, 116u8, 101u8, 115u8, 116u8]
}

/// The context string, as bytes: the ASCII text `FROST-test`.
pub fn context_string() -> (r: Vec<u8>)
    ensures
        r@ == spec_context_string(),
{
    let mut v: Vec<u8> = Vec::new();
    v.push(70u8);
    v.push(82u8);
    v.push(79u8);
    v.push(83u8);
    v.push(84u8);
    v.push(45u8);
    v.push(116u8);
    v.push(101u8);
    v.push(115u8);
    v.push(116u8);
    proof {
        assert(v@ =~= spec_context_string());
    }
    v
}

/// The residues held by a sequence of scalars.
pub open spec fn scalar_seq_of(s: Seq<Scalar>) -> Seq<nat> {
    s.map_values(|x: Scalar| scalar_of(x))
}

/// The discrete logarithms held by a sequence of group elements.
pub open spec fn point_dlog_seq(s: Seq<GroupElement>) -> Seq<nat> {
    s.map_values(|p: GroupElement| point_dlog(p))
}

/// Addition modulo the group order.
pub open spec fn qadd(a: nat, b: nat) -> nat {
    (((a + b) as int) % (group_order() as int)) as nat
}

/// Subtraction modulo the group order.
pub open spec fn qsub(a: nat, b: nat) -> nat {
    ((a - b) % (group_order() as int)) as nat
}

/// Multiplication modulo the group order.
pub open spec fn qmul(a: nat, b: nat) -> nat {
    (((a * b) as int) % (group_order() as int)) as nat
}

/// Relies on `core::ops::Add` for `ark_ff::Fp`: field addition modulo `q`.
#[verifier::external_body]
pub(crate) fn scalar_add(a: &Scalar, b: &Scalar) -> (r: Scalar)
    ensures
        scalar_of(r) == qadd(scalar_of(*a), scalar_of(*b)),
        scalar_of(r) < group_order(),
{
    Scalar { inner: a.inner + b.inner }
}

/// Relies on `core::ops::Sub` for `ark_ff::Fp`: field subtraction modulo `q`.
#[verifier::external_body]
pub(crate) fn scalar_sub(a: &Scalar, b: &Scalar) -> (r: Scalar)
    ensures
        scalar_of(r) == qsub(scalar_of(*a), scalar_of(*b)),
        scalar_of(r) < group_order(),
{
    Scalar { inner: a.inner - b.inner }
}

/// Relies on `core::ops::Mul` for `ark_ff::Fp`: field multiplication modulo
/// `q`.  The last clause holds because `Fp` with a prime modulus is a field,
/// and a product of nonzero field elements is nonzero.
#[verifier::external_body]
pub(crate) fn scalar_mul(a: &Scalar, b: &Scalar) -> (r: Scalar)
    ensures
        scalar_of(r) == qmul(scalar_of(*a), scalar_of(*b)),
        scalar_of(r) < group_order(),
        scalar_of(*a) != 0 && scalar_of(*b) != 0 ==> scalar_of(r) != 0,
{
    Scalar { inner: a.inner * b.inner }
}

/// Relies on `ark_ff::Field::inverse`: returns `None` exactly on the zero
/// element, and otherwise the multiplicative inverse.
#[verifier::external_body]
pub(crate) fn scalar_inverse(a: &Scalar) -> (r: Option<Scalar>)
    ensures
        r is Some <==> scalar_of(*a) != 0,
        r matches Some(inv) ==> qmul(scalar_of(*a), scalar_of(inv)) == 1
            && scalar_of(inv) < group_order(),
{
    a.inner.inverse().map(|s| Scalar { inner: s })
}

/// Relies on `PartialEq` for `ark_ff::Fp`: equality of canonical residues.
#[verifier::external_body]
pub(crate) fn scalar_eq(a: &Scalar, b: &Scalar) -> (r: bool)
    ensures
        r <==> scalar_of(*a) == scalar_of(*b),
{
    a.inner == b.inner
}

/// Relies on `From<u32>` for `ark_ff::Fp`: embeds an integer into the field.
#[verifier::external_body]
pub(crate) fn scalar_from_u32(v: u32) -> (r: Scalar)
    ensures
        scalar_of(r) == v as nat % group_order(),
        scalar_of(r) < group_order(),
{
    Scalar { inner: ark_secp256k1::Fr::from(v) }
}

/// Relies on `ark_std::UniformRand::rand` over the operating system's
/// entropy source.  Nothing is promised of the value drawn beyond its range.
#[verifier::external_body]
pub(crate) fn random_scalar() -> (r: Scalar)
    ensures
        scalar_of(r) < group_order(),
{
    Scalar { inner: ark_secp256k1::Fr::rand(&mut OsRng) }
}

/// Relies on `zeroize::Zeroize` for `ark_ff::Fp`: overwrites the scalar
/// with the zero element.
#[verifier::external_body]
pub(crate) fn scalar_zeroize(s: &mut Scalar)
    ensures
        scalar_of(*final(s)) == 0,
{
    s.inner.zeroize();
}

/// Relies on `ark_serialize::CanonicalSerialize::serialize_compressed` for
/// `ark_ff::Fp`: the canonical 32-byte little-endian encoding.
#[verifier::external_body]
pub(crate) fn scalar_to_bytes(s: &Scalar) -> (r: Vec<u8>)
    ensures
        r@ == scalar_enc(scalar_of(*s)),
        r@.len() == 32,
{
    let mut bytes = Vec::new();
    let _ = s.inner.serialize_compressed(&mut bytes);
    bytes
}

/// Relies on `ark_serialize::CanonicalDeserialize::deserialize_compressed`
/// for `ark_ff::Fp`: accepts exactly the canonical encodings of residues
/// below the modulus, and returns the encoded residue.
#[verifier::external_body]
pub(crate) fn scalar_from_bytes(b: &[u8]) -> (r: Option<Scalar>)
    requires
        b@.len() == 32,
    ensures
        r matches Some(s) ==> scalar_of(s) < group_order() && scalar_enc(scalar_of(s)) == b@,
        forall|v: nat|
            v < group_order() && scalar_enc(v) == b@ ==> r is Some && scalar_of(r.unwrap()) == v,
{
    ark_secp256k1::Fr::deserialize_compressed(b).ok().map(|s| Scalar { inner: s })
}

/// Relies on `ark_ec::Group::generator`: the fixed basepoint `B`.
#[verifier::external_body]
pub(crate) fn basepoint() -> (r: GroupElement)
    ensures
        point_dlog(r) == 1,
{
    GroupElement { inner: ark_secp256k1::Projective::generator() }
}

/// Relies on `ark_std::Zero::zero` for the projective group: the identity.
#[verifier::external_body]
pub(crate) fn point_identity() -> (r: GroupElement)
    ensures
        point_dlog(r) == 0,
{
    GroupElement { inner: ark_secp256k1::Projective::zero() }
}

/// Relies on `core::ops::Add` for the projective group: the group law, which
/// adds discrete logarithms modulo the group order.
#[verifier::external_body]
pub(crate) fn point_add(p: &GroupElement, q: &GroupElement) -> (r: GroupElement)
    ensures
        point_dlog(r) == qadd(point_dlog(*p), point_dlog(*q)),
        point_dlog(r) < group_order(),
{
    GroupElement { inner: p.inner + q.inner }
}

/// Relies on `core::ops::Mul` of a group element by a scalar: multiplies the
/// discrete logarithm by the scalar's residue modulo the group order.
#[verifier::external_body]
pub(crate) fn point_scalar_mul(p: &GroupElement, s: &Scalar) -> (r: GroupElement)
    ensures
        point_dlog(r) == qmul(point_dlog(*p), scalar_of(*s)),
        point_dlog(r) < group_order(),
{
    GroupElement { inner: p.inner * s.inner }
}

/// Relies on `PartialEq` for the projective group: equality of group
/// elements, which in a cyclic group of prime order is equality of discrete
/// logarithms.
#[verifier::external_body]
pub(crate) fn point_eq(p: &GroupElement, q: &GroupElement) -> (r: bool)
    ensures
        r <==> point_dlog(*p) == point_dlog(*q),
{
    p.inner == q.inner
}

/// Relies on `ark_serialize::CanonicalSerialize::serialize_compressed` for
/// short Weierstrass points: the canonical 33-byte compressed encoding.
#[verifier::external_body]
pub(crate) fn point_to_bytes(p: &GroupElement) -> (r: Vec<u8>)
    ensures
        r@ == point_enc(point_dlog(*p)),
        r@.len() == 33,
{
    let mut bytes = Vec::new();
    let _ = p.inner.serialize_compressed(&mut bytes);
    bytes
}

/// Relies on `ark_serialize::CanonicalDeserialize::deserialize_compressed`
/// for short Weierstrass points: every canonical encoding is accepted and
/// decodes to its element, and anything accepted is a valid group element.
/// The decoder also accepts non-canonical spellings of the identity (any
/// x-bytes under the infinity flag), so acceptance alone does not imply
/// that the input was canonical; callers re-encode and compare when they
/// need that.
#[verifier::external_body]
pub(crate) fn point_from_bytes(b: &[u8]) -> (r: Option<GroupElement>)
    requires
        b@.len() == 33,
    ensures
        r matches Some(p) ==> point_dlog(p) < group_order(),
        forall|d: nat|
            d < group_order() && point_enc(d) == b@ ==> r is Some && point_dlog(r.unwrap()) == d,
{
    ark_secp256k1::Projective::deserialize_compressed(b).ok().map(|p| GroupElement { inner: p })
}

/// Relies on `sha2::Sha256` through `digest::Digest`: the 32-byte SHA-256
/// digest, a function of the input bytes alone.
#[verifier::external_body]
pub(crate) fn sha256(data: &[u8]) -> (r: Vec<u8>)
    ensures
        r@ == sha256_of(data@),
        r@.len() == 32,
{
    Sha256::digest(data).to_vec()
}

/// Relies on `ark_ff::field_hashers::DefaultFieldHasher` (SHA-256, 128-bit
/// security) through `HashToField`: a scalar that is a function of the
/// domain string and the message alone.
#[verifier::external_body]
pub(crate) fn hash_to_scalar(ctx: &[u8], msg: &[u8]) -> (r: Scalar)
    ensures
        scalar_of(r) == hash_to_scalar_of(ctx@, msg@),
        scalar_of(r) < group_order(),
{
    let hasher = <DefaultFieldHasher<Sha256> as HashToField<ark_secp256k1::Fr>>::new(ctx);
    Scalar { inner: hasher.hash_to_field(msg, 1)[0] }
}

impl Scalar {
    /// A scalar drawn uniformly from the operating system's entropy source.
    pub fn random() -> (r: Scalar)
        ensures
            scalar_of(r) < group_order(),
    {
        random_scalar()
    }

    /// The field element that represents the integer `v`.
    pub fn from_index(v: u32) -> (r: Scalar)
        ensures
            scalar_of(r) == v as nat % group_order(),
            scalar_of(r) < group_order(),
    {
        scalar_from_u32(v)
    }

    /// The sum of this scalar and `other`, modulo the group order.
    pub fn plus(&self, other: &Scalar) -> (r: Scalar)
        ensures
            scalar_of(r) == qadd(scalar_of(*self), scalar_of(*other)),
            scalar_of(r) < group_order(),
    {
        scalar_add(self, other)
    }

    /// The difference of this scalar and `other`, modulo the group order.
    pub fn minus(&self, other: &Scalar) -> (r: Scalar)
        ensures
            scalar_of(r) == qsub(scalar_of(*self), scalar_of(*other)),
            scalar_of(r) < group_order(),
    {
        scalar_sub(self, other)
    }

    /// The product of this scalar and `other`, modulo the group order.
    pub fn times(&self, other: &Scalar) -> (r: Scalar)
        ensures
            scalar_of(r) == qmul(scalar_of(*self), scalar_of(*other)),
            scalar_of(r) < group_order(),
            scalar_of(*self) != 0 && scalar_of(*other) != 0 ==> scalar_of(r) != 0,
    {
        scalar_mul(self, other)
    }

    /// The multiplicative inverse of this scalar, or `None` on zero.
    pub fn invert(&self) -> (r: Option<Scalar>)
        ensures
            r is Some <==> scalar_of(*self) != 0,
            r matches Some(inv) ==> qmul(scalar_of(*self), scalar_of(inv)) == 1
                && scalar_of(inv) < group_order(),
    {
        scalar_inverse(self)
    }
}

impl GroupElement {
    /// The basepoint `B` of the group.
    pub fn basepoint() -> (r: GroupElement)
        ensures
            point_dlog(r) == 1,
    {
        basepoint()
    }

    /// The identity element of the group.
    pub fn identity() -> (r: GroupElement)
        ensures
            point_dlog(r) == 0,
    {
        point_identity()
    }

    /// The multiple `s * B` of the basepoint.
    pub fn basepoint_mul(s: &Scalar) -> (r: GroupElement)
        ensures
            point_dlog(r) == scalar_of(*s) % group_order(),
    {
        let b = basepoint();
        let r = point_scalar_mul(&b, s);
        proof {
            vstd::arithmetic::div_mod::lemma_mod_bound(
                (1 * scalar_of(*s)) as int,
                group_order() as int,
            );
        }
        r
    }

    /// The sum of this element and `other` under the group law.
    pub fn plus(&self, other: &GroupElement) -> (r: GroupElement)
        ensures
            point_dlog(r) == qadd(point_dlog(*self), point_dlog(*other)),
            point_dlog(r) < group_order(),
    {
        point_add(self, other)
    }

    /// The multiple of this element by the scalar `s`.
    pub fn scaled(&self, s: &Scalar) -> (r: GroupElement)
        ensures
            point_dlog(r) == qmul(point_dlog(*self), scalar_of(*s)),
            point_dlog(r) < group_order(),
    {
        point_scalar_mul(self, s)
    }
}

impl PartialEq for Scalar {
    fn eq(&self, other: &Scalar) -> (r: bool) {
        scalar_eq(self, other)
    }
}

impl Eq for Scalar {}

impl vstd::std_specs::cmp::PartialEqSpecImpl for Scalar {
    open spec fn obeys_eq_spec() -> bool {
        true
    }

    open spec fn eq_spec(&self, other: &Scalar) -> bool {
        scalar_of(*self) == scalar_of(*other)
    }
}

impl PartialEq for GroupElement {
    fn eq(&self, other: &GroupElement) -> (r: bool) {
        point_eq(self, other)
    }
}

impl Eq for GroupElement {}

impl vstd::std_specs::cmp::PartialEqSpecImpl for GroupElement {
    open spec fn obeys_eq_spec() -> bool {
        true
    }

    open spec fn eq_spec(&self, other: &GroupElement) -> bool {
        point_dlog(*self) == point_dlog(*other)
    }
}

} // verus!
