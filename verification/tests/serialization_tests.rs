use ice_frost::curve::{GroupElement, Scalar};
use ice_frost::dkg::Participant;
use ice_frost::keys::{
    DiffieHellmanPrivateKey, DiffieHellmanPublicKey, GroupKey, IndividualSigningKey,
    IndividualVerifyingKey,
};
use ice_frost::nizk::NizkPokOfSecretKey;
use ice_frost::parameters::ThresholdParameters;
use ice_frost::precomputation::generate_commitment_share_lists;
use ice_frost::precomputation::{PublicCommitmentShareList, SecretCommitmentShareList};
use ice_frost::secret_share::{Coefficients, VerifiableSecretSharingCommitment};

#[test]
fn group_key_round_trip() {
    for _ in 0..20 {
        let k = GroupKey::new(GroupElement::basepoint_mul(&Scalar::random()));
        let bytes = k.to_bytes().unwrap();
        assert!(bytes.len() == 33);
        assert!(GroupKey::from_bytes(&bytes).unwrap() == k);
    }
    assert!(GroupKey::from_bytes(&[255u8; 64]).is_err());
    assert!(GroupKey::from_bytes(&[255u8; 128]).is_err());
}

#[test]
fn dh_keys_round_trip() {
    for _ in 0..20 {
        let sk = DiffieHellmanPrivateKey(Scalar::random());
        let pk = DiffieHellmanPublicKey::new(GroupElement::basepoint_mul(&sk.0));
        let sk_bytes = sk.to_bytes().unwrap();
        let pk_bytes = pk.to_bytes().unwrap();
        assert!(DiffieHellmanPrivateKey::from_bytes(&sk_bytes).unwrap() == sk);
        assert!(DiffieHellmanPublicKey::from_bytes(&pk_bytes).unwrap() == pk);
    }
    assert!(DiffieHellmanPrivateKey::from_bytes(&[255u8; 64]).is_err());
    assert!(DiffieHellmanPublicKey::from_bytes(&[255u8; 128]).is_err());
}

#[test]
fn individual_keys_round_trip() {
    for i in 1u32..20 {
        let sk = IndividualSigningKey { index: i, key: Scalar::random() };
        let vk = sk.to_public();
        let sk_bytes = sk.to_bytes().unwrap();
        let vk_bytes = vk.to_bytes().unwrap();
        assert!(IndividualSigningKey::from_bytes(&sk_bytes).unwrap() == sk);
        assert!(IndividualVerifyingKey::from_bytes(&vk_bytes).unwrap() == vk);
    }
    assert!(IndividualSigningKey::from_bytes(&[255u8; 64]).is_err());
    assert!(IndividualVerifyingKey::from_bytes(&[255u8; 128]).is_err());
}

#[test]
fn vss_commitment_round_trip() {
    let mut points = Vec::new();
    for _ in 0..4 {
        points.push(GroupElement::basepoint_mul(&Scalar::random()));
    }
    let c = VerifiableSecretSharingCommitment { index: 7, points };
    let bytes = c.to_bytes().unwrap();
    let decoded = VerifiableSecretSharingCommitment::from_bytes(&bytes).unwrap();
    assert!(decoded.to_bytes().unwrap() == bytes);
    assert!(decoded.index == 7);
    assert!(decoded.points.len() == 4);
    assert!(VerifiableSecretSharingCommitment::from_bytes(&[255u8; 64]).is_err());
    assert!(VerifiableSecretSharingCommitment::from_bytes(&[255u8; 128]).is_err());
}

#[test]
fn nizk_proof_round_trip() {
    let secret = Scalar::random();
    let public = GroupElement::basepoint_mul(&secret);
    let pok = NizkPokOfSecretKey::prove(42, &secret, &public).unwrap();
    let bytes = pok.to_bytes().unwrap();
    assert!(NizkPokOfSecretKey::from_bytes(&bytes).unwrap() == pok);
    assert!(NizkPokOfSecretKey::from_bytes(&[255u8; 64]).is_err());
    assert!(NizkPokOfSecretKey::from_bytes(&[255u8; 128]).is_err());
}

#[test]
fn encrypted_share_round_trip() {
    let params = ThresholdParameters::new(2, 2).unwrap();
    let (_p1, coeffs, dh_sk) = Participant::new_dealer(&params, 1).unwrap();
    let (p2, _dh_sk2) = ice_frost::dkg::Participant::new_signer(&params, 2).unwrap();
    let plain = ice_frost::secret_share::SecretShare::generate(&coeffs, 1, 2);
    let shared = p2.dh_public_key.key.scaled(&dh_sk.0);
    let enc = ice_frost::secret_share::encrypt_share(&plain, &shared);
    let bytes = enc.to_bytes().unwrap();
    let decoded = ice_frost::secret_share::EncryptedSecretShare::from_bytes(&bytes).unwrap();
    assert!(decoded.to_bytes().unwrap() == bytes);
    assert!(decoded.sender_index == 1 && decoded.receiver_index == 2);
    assert!(ice_frost::secret_share::EncryptedSecretShare::from_bytes(&[255u8; 64]).is_err());
    assert!(ice_frost::secret_share::EncryptedSecretShare::from_bytes(&[255u8; 128]).is_err());
}

#[test]
fn participant_round_trip() {
    let params = ThresholdParameters::new(3, 2).unwrap();
    let (dealer, _coeffs, _dh) = Participant::new_dealer(&params, 1).unwrap();
    let bytes = dealer.to_bytes().unwrap();
    let decoded = Participant::from_bytes(&bytes).unwrap();
    assert!(decoded.to_bytes().unwrap() == bytes);
    assert!(decoded.index == 1);
    assert!(decoded.commitments.is_some() && decoded.proof_of_secret_key.is_some());

    let (signer, _dh2) = Participant::new_signer(&params, 2).unwrap();
    let signer_bytes = signer.to_bytes().unwrap();
    let signer_decoded = Participant::from_bytes(&signer_bytes).unwrap();
    assert!(signer_decoded.to_bytes().unwrap() == signer_bytes);
    assert!(signer_decoded.commitments.is_none());

    assert!(Participant::from_bytes(&[255u8; 64]).is_err());
    assert!(Participant::from_bytes(&[255u8; 128]).is_err());
}

#[test]
fn share_lists_round_trip() {
    let (public_list, secret_list) = generate_commitment_share_lists(5, 3);
    let pub_bytes = public_list.to_bytes().unwrap();
    let sec_bytes = secret_list.to_bytes().unwrap();
    let pub_decoded = PublicCommitmentShareList::from_bytes(&pub_bytes).unwrap();
    let sec_decoded = SecretCommitmentShareList::from_bytes(&sec_bytes).unwrap();
    assert!(pub_decoded.to_bytes().unwrap() == pub_bytes);
    assert!(pub_decoded.participant_index == 5);
    assert!(pub_decoded.commitments.len() == 3);
    assert!(sec_decoded.to_bytes().unwrap() == sec_bytes);
    assert!(sec_decoded.commitments.len() == 3);
    for k in 0..3 {
        assert!(sec_decoded.commitments[k] == secret_list.commitments[k]);
    }
    assert!(PublicCommitmentShareList::from_bytes(&[255u8; 64]).is_err());
    assert!(SecretCommitmentShareList::from_bytes(&[255u8; 128]).is_err());
}

#[test]
fn coefficients_length_matches_threshold() {
    let params = ThresholdParameters::new(5, 3).unwrap();
    let (_dealer, coeffs, _dh) = Participant::new_dealer(&params, 1).unwrap();
    let _ = &coeffs;
    assert!(Coefficients::len(&coeffs) == 3);
}
