use ice_frost::curve::{GroupElement, Scalar};
use ice_frost::precomputation::{
    generate_commitment_share_lists, Commitment, CommitmentShare, NoncePair,
};

#[test]
fn secret_pair() {
    let _secret_pair = NoncePair::new();
}

#[test]
fn secret_pair_into_commitment_share() {
    let _commitment_share: CommitmentShare = CommitmentShare::from_nonces(NoncePair::new());
}

#[test]
fn test_serialisation() {
    for _ in 0..100 {
        let secret = Scalar::random();
        let commit = GroupElement::basepoint_mul(&secret);
        let commitment = Commitment { secret, commit };
        let bytes = commitment.to_bytes().unwrap();
        assert!(commitment == Commitment::from_bytes(&bytes).unwrap());
    }

    for _ in 0..100 {
        let secret = Scalar::random();
        let commit = GroupElement::basepoint_mul(&secret);
        let binding = Commitment { secret, commit };
        let hiding = binding.clone();
        let commitment_share = CommitmentShare { binding, hiding };
        let bytes = commitment_share.to_bytes().unwrap();
        assert!(commitment_share == CommitmentShare::from_bytes(&bytes).unwrap());
    }

    // invalid encodings
    let bytes = [255u8; 64];
    assert!(Commitment::from_bytes(&bytes).is_err());

    let bytes = [255u8; 128];
    assert!(CommitmentShare::from_bytes(&bytes).is_err());
}

#[test]
fn commitment_share_list_generate() {
    let (public_share_list, secret_share_list) = generate_commitment_share_lists(0, 5);

    assert!(
        public_share_list.commitments[0].0
            == GroupElement::basepoint_mul(&secret_share_list.commitments[0].hiding.secret)
    );
}

#[test]
fn drop_used_commitment_shares() {
    let (_public_share_list, mut secret_share_list) = generate_commitment_share_lists(3, 8);

    assert!(secret_share_list.commitments.len() == 8);

    let used_share: CommitmentShare = secret_share_list.commitments[0].clone();

    secret_share_list.drop_share(used_share);

    assert!(secret_share_list.commitments.len() == 7);
}

#[test]
fn drop_absent_commitment_share_is_noop() {
    let (_public, mut secret_share_list) = generate_commitment_share_lists(1, 4);
    let foreign = CommitmentShare::from_nonces(NoncePair::new());

    secret_share_list.drop_share(foreign);

    assert!(secret_share_list.commitments.len() == 4);
}
