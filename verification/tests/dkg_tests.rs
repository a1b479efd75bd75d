use ice_frost::dkg::{DistributedKeyGeneration, Participant};
use ice_frost::keys::{DiffieHellmanPrivateKey, GroupKey, IndividualSigningKey};
use ice_frost::parameters::ThresholdParameters;
use ice_frost::precomputation::generate_commitment_share_lists;
use ice_frost::secret_share::{Coefficients, EncryptedSecretShare};
use ice_frost::sign::{aggregate_signatures, sign_partial, SignerNonceCommitment, ThresholdSignature};

fn dealers(
    params: &ThresholdParameters,
    indices: &[u32],
) -> (Vec<Participant>, Vec<Coefficients>, Vec<DiffieHellmanPrivateKey>) {
    let mut participants = Vec::new();
    let mut coefficients = Vec::new();
    let mut dh_keys = Vec::new();
    for &i in indices {
        let (p, c, sk) = Participant::new_dealer(params, i).unwrap();
        participants.push(p);
        coefficients.push(c);
        dh_keys.push(sk);
    }
    (participants, coefficients, dh_keys)
}

fn round_one_all(
    params: &ThresholdParameters,
    participants: &[Participant],
    coefficients: &[Coefficients],
    dh_keys: &[DiffieHellmanPrivateKey],
) -> (Vec<DistributedKeyGeneration>, Vec<Vec<EncryptedSecretShare>>) {
    let mut states = Vec::new();
    let mut all_shares = Vec::new();
    for k in 0..participants.len() {
        let (state, _lists) = DistributedKeyGeneration::new_state_internal(
            params,
            &dh_keys[k],
            participants[k].index,
            Some(&coefficients[k]),
            participants,
        )
        .unwrap();
        let shares = state.their_encrypted_secret_shares.clone().unwrap();
        all_shares.push(shares);
        states.push(state);
    }
    (states, all_shares)
}

fn shares_for(receiver: u32, all_shares: &[Vec<EncryptedSecretShare>]) -> Vec<EncryptedSecretShare> {
    let mut out = Vec::new();
    for list in all_shares {
        for s in list {
            if s.receiver_index == receiver {
                out.push(s.clone());
            }
        }
    }
    out
}

fn finalize(
    state: DistributedKeyGeneration,
    my_shares: &[EncryptedSecretShare],
) -> (IndividualSigningKey, GroupKey) {
    let round_two = state.to_round_two(my_shares).unwrap();
    round_two.finish().unwrap()
}

fn sign_message(
    message: &[u8],
    group_key: &GroupKey,
    signing_keys: &[&IndividualSigningKey],
) -> ThresholdSignature {
    let mut signers = Vec::new();
    let mut secrets = Vec::new();
    for key in signing_keys {
        let index = key.index;
        let (public_list, secret_list) = generate_commitment_share_lists(index, 1);
        signers.push(SignerNonceCommitment {
            index,
            hiding: public_list.commitments[0].0.clone(),
            binding: public_list.commitments[0].1.clone(),
        });
        secrets.push(secret_list);
    }
    let mut partials = Vec::new();
    for (k, key) in signing_keys.iter().enumerate() {
        let share = secrets[k].commitments[0].clone();
        let partial = sign_partial(message, group_key, key, share, &signers).unwrap();
        partials.push(partial);
    }
    aggregate_signatures(message, &signers, &partials)
}

#[test]
fn three_dealers_dkg_and_all_signing_pairs() {
    let params = ThresholdParameters::new(3, 2).unwrap();
    let (participants, coefficients, dh_keys) = dealers(&params, &[1, 2, 3]);
    let (states, all_shares) = round_one_all(&params, &participants, &coefficients, &dh_keys);

    let mut keys = Vec::new();
    let mut group_keys = Vec::new();
    for state in states {
        let receiver = state.index;
        let my_shares = shares_for(receiver, &all_shares);
        let (sk, gk) = finalize(state, &my_shares);
        keys.push(sk);
        group_keys.push(gk);
    }
    assert!(group_keys[0] == group_keys[1]);
    assert!(group_keys[1] == group_keys[2]);

    let message = b"hello";
    let sig12 = sign_message(message, &group_keys[0], &[&keys[0], &keys[1]]);
    assert!(sig12.verify(&group_keys[0], message).is_ok());
    let sig13 = sign_message(message, &group_keys[0], &[&keys[0], &keys[2]]);
    assert!(sig13.verify(&group_keys[0], message).is_ok());
    let sig23 = sign_message(message, &group_keys[0], &[&keys[1], &keys[2]]);
    assert!(sig23.verify(&group_keys[0], message).is_ok());
}

#[test]
fn misbehaving_dealer_share_excluded() {
    let params = ThresholdParameters::new(3, 2).unwrap();
    let (participants, coefficients, dh_keys) = dealers(&params, &[1, 2, 3]);
    let (mut states, mut all_shares) = round_one_all(&params, &participants, &coefficients, &dh_keys);

    // Dealer 2 corrupts the share addressed to participant 3.
    for s in all_shares[1].iter_mut() {
        if s.receiver_index == 3 {
            s.encrypted_polynomial_evaluation[0] ^= 0xff;
        }
    }

    // Participant 3 sees the bad share, drops dealer 2, and still
    // finalizes with the two remaining dealers.
    let state3 = states.pop().unwrap();
    let state2 = states.pop().unwrap();
    let state1 = states.pop().unwrap();

    let shares3 = shares_for(3, &all_shares);
    let round_two_3 = state3.to_round_two(&shares3).unwrap();
    let (sk3, gk3) = round_two_3.finish().unwrap();

    // After participant 3's complaint, participant 1 excludes dealer 2 as
    // well and finalizes over the same dealer set.
    let shares1: Vec<EncryptedSecretShare> = shares_for(1, &all_shares)
        .into_iter()
        .filter(|s| s.sender_index != 2)
        .collect();
    let (sk1, gk1) = finalize(state1, &shares1);
    drop(state2);

    assert!(gk1 == gk3);

    let message = b"still signing";
    let sig = sign_message(message, &gk1, &[&sk1, &sk3]);
    assert!(sig.verify(&gk3, message).is_ok());
}

#[test]
fn misbehaving_dealer_bad_dh_proof() {
    let params = ThresholdParameters::new(3, 2).unwrap();
    let (mut participants, coefficients, dh_keys) = dealers(&params, &[1, 2, 3]);

    // Replace dealer 2's DH proof with one for an unrelated key.
    let (mallory, _mallory_sk) = Participant::new_signer(&params, 2).unwrap();
    participants[1].proof_of_dh_private_key = mallory.proof_of_dh_private_key;

    // Every honest party classifies 2 as misbehaving in round one.
    let mut states = Vec::new();
    let mut all_shares = Vec::new();
    for k in [0usize, 2usize] {
        let (state, lists) = DistributedKeyGeneration::new_state_internal(
            &params,
            &dh_keys[k],
            participants[k].index,
            Some(&coefficients[k]),
            &participants,
        )
        .unwrap();
        assert!(lists.misbehaving.contains(&2));
        assert!(!lists.honest.contains(&2));
        all_shares.push(state.their_encrypted_secret_shares.clone().unwrap());
        states.push(state);
    }

    let shares1 = shares_for(1, &all_shares);
    let shares3 = shares_for(3, &all_shares);
    let mut iter = states.into_iter();
    let (sk1, gk1) = finalize(iter.next().unwrap(), &shares1);
    let (sk3, gk3) = finalize(iter.next().unwrap(), &shares3);
    assert!(gk1 == gk3);

    let message = b"two are enough";
    let sig = sign_message(message, &gk1, &[&sk1, &sk3]);
    assert!(sig.verify(&gk1, message).is_ok());
}

#[test]
fn five_party_dkg_two_messages_and_share_consumption() {
    let params = ThresholdParameters::new(5, 3).unwrap();
    let indices = [1u32, 2, 3, 4, 5];
    let (participants, coefficients, dh_keys) = dealers(&params, &indices);
    let (states, all_shares) = round_one_all(&params, &participants, &coefficients, &dh_keys);

    let mut keys = Vec::new();
    let mut group_keys = Vec::new();
    for state in states {
        let receiver = state.index;
        let my_shares = shares_for(receiver, &all_shares);
        let (sk, gk) = finalize(state, &my_shares);
        keys.push(sk);
        group_keys.push(gk);
    }
    for k in 1..5 {
        assert!(group_keys[0] == group_keys[k]);
    }

    // One list of ten precomputed shares per signer.
    let mut public_lists = Vec::new();
    let mut secret_lists = Vec::new();
    for &i in &indices {
        let (public_list, secret_list) = generate_commitment_share_lists(i, 10);
        assert!(secret_list.commitments.len() == 10);
        public_lists.push(public_list);
        secret_lists.push(secret_list);
    }

    let mut used = [0usize; 5];
    for (message, subset) in [(&b"m1"[..], [0usize, 1, 2]), (&b"m2"[..], [1usize, 3, 4])] {
        let mut signers = Vec::new();
        for &k in &subset {
            signers.push(SignerNonceCommitment {
                index: indices[k],
                hiding: public_lists[k].commitments[used[k]].0.clone(),
                binding: public_lists[k].commitments[used[k]].1.clone(),
            });
        }
        let mut partials = Vec::new();
        for &k in &subset {
            let share = secret_lists[k].commitments[0].clone();
            let partial =
                sign_partial(message, &group_keys[0], &keys[k], share.clone(), &signers).unwrap();
            partials.push(partial);
            // The consumed share leaves the signer's secret list.
            let before = secret_lists[k].commitments.len();
            secret_lists[k].drop_share(share);
            assert!(secret_lists[k].commitments.len() == before - 1);
            used[k] += 1;
        }
        let sig = aggregate_signatures(message, &signers, &partials);
        assert!(sig.verify(&group_keys[0], message).is_ok());
    }
}

#[test]
fn resharing_preserves_group_key() {
    // First a (3, 2) run among three dealers.
    let params = ThresholdParameters::new(3, 2).unwrap();
    let (participants, coefficients, dh_keys) = dealers(&params, &[1, 2, 3]);
    let (states, all_shares) = round_one_all(&params, &participants, &coefficients, &dh_keys);
    let mut old_keys = Vec::new();
    let mut old_group_key = None;
    for state in states {
        let receiver = state.index;
        let my_shares = shares_for(receiver, &all_shares);
        let (sk, gk) = finalize(state, &my_shares);
        old_keys.push(sk);
        old_group_key = Some(gk);
    }
    let old_group_key = old_group_key.unwrap();

    // The three old signers reshare to five new signers with t' = 3.
    let new_params = ThresholdParameters::new(5, 3).unwrap();
    let mut new_signers = Vec::new();
    let mut new_dh_keys = Vec::new();
    for i in 1u32..=5 {
        let (p, sk) = Participant::new_signer(&new_params, i).unwrap();
        new_signers.push(p);
        new_dh_keys.push(sk);
    }

    let mut reshare_dealers = Vec::new();
    let mut reshare_shares = Vec::new();
    for sk in old_keys {
        let (dealer, shares, _lists) =
            Participant::reshare(&new_params, sk, &new_signers).unwrap();
        reshare_dealers.push(dealer);
        reshare_shares.push(shares);
    }

    let mut new_keys = Vec::new();
    let mut new_group_keys = Vec::new();
    for k in 0..5 {
        let (state, _lists) = DistributedKeyGeneration::new_state_internal(
            &new_params,
            &new_dh_keys[k],
            new_signers[k].index,
            None,
            &reshare_dealers,
        )
        .unwrap();
        let my_shares = shares_for(new_signers[k].index, &reshare_shares);
        let round_two = state.to_round_two(&my_shares).unwrap();
        let (sk, gk) = round_two.finish().unwrap();
        new_keys.push(sk);
        new_group_keys.push(gk);
    }

    for gk in &new_group_keys {
        assert!(*gk == old_group_key);
    }

    // A fresh signature from three of the new signers verifies under the
    // old group key.
    let message = b"resharing";
    let sig = sign_message(message, &old_group_key, &[&new_keys[0], &new_keys[2], &new_keys[4]]);
    assert!(sig.verify(&old_group_key, message).is_ok());
}

#[test]
fn unanimity_and_single_signer_thresholds() {
    // t = n: everyone must sign.
    let params = ThresholdParameters::new(2, 2).unwrap();
    let (participants, coefficients, dh_keys) = dealers(&params, &[7, 9]);
    let (states, all_shares) = round_one_all(&params, &participants, &coefficients, &dh_keys);
    let mut keys = Vec::new();
    let mut gks = Vec::new();
    for state in states {
        let receiver = state.index;
        let my_shares = shares_for(receiver, &all_shares);
        let (sk, gk) = finalize(state, &my_shares);
        keys.push(sk);
        gks.push(gk);
    }
    assert!(gks[0] == gks[1]);
    let sig = sign_message(b"both", &gks[0], &[&keys[0], &keys[1]]);
    assert!(sig.verify(&gks[0], b"both").is_ok());

    // t = 1: any single participant signs alone.
    let params1 = ThresholdParameters::new(2, 1).unwrap();
    let (participants1, coefficients1, dh_keys1) = dealers(&params1, &[1, 2]);
    let (states1, all_shares1) = round_one_all(&params1, &participants1, &coefficients1, &dh_keys1);
    let mut keys1 = Vec::new();
    let mut gks1 = Vec::new();
    for state in states1 {
        let receiver = state.index;
        let my_shares = shares_for(receiver, &all_shares1);
        let (sk, gk) = finalize(state, &my_shares);
        keys1.push(sk);
        gks1.push(gk);
    }
    assert!(gks1[0] == gks1[1]);
    let sig_alone = sign_message(b"solo", &gks1[0], &[&keys1[1]]);
    assert!(sig_alone.verify(&gks1[0], b"solo").is_ok());
}

#[test]
fn duplicate_participant_indices_refused() {
    let params = ThresholdParameters::new(3, 2).unwrap();
    let (mut participants, coefficients, dh_keys) = dealers(&params, &[1, 2, 3]);
    let (dup, _c, _k) = Participant::new_dealer(&params, 2).unwrap();
    participants[2] = dup;
    let r = DistributedKeyGeneration::new_state_internal(
        &params,
        &dh_keys[0],
        1,
        Some(&coefficients[0]),
        &participants,
    );
    assert!(matches!(r, Err(ice_frost::Error::DuplicateIndex)));
}

#[test]
fn insufficient_shares_is_fatal() {
    let params = ThresholdParameters::new(3, 3).unwrap();
    let (participants, coefficients, dh_keys) = dealers(&params, &[1, 2, 3]);
    let (states, all_shares) = round_one_all(&params, &participants, &coefficients, &dh_keys);
    // Withhold dealer 3's share for participant 1.
    let shares1: Vec<EncryptedSecretShare> = shares_for(1, &all_shares)
        .into_iter()
        .filter(|s| s.sender_index != 3)
        .collect();
    let state1 = states.into_iter().next().unwrap();
    let r = state1.to_round_two(&shares1);
    assert!(matches!(r, Err(ice_frost::Error::InsufficientShares)));
}

#[test]
fn wrong_dh_key_fails_decryption() {
    let params = ThresholdParameters::new(2, 2).unwrap();
    let (participants, coefficients, dh_keys) = dealers(&params, &[1, 2]);
    let (_states, all_shares) = round_one_all(&params, &participants, &coefficients, &dh_keys);
    let share_for_2 = shares_for(2, &all_shares)
        .into_iter()
        .find(|s| s.sender_index == 1)
        .unwrap();
    // Decrypting with an unrelated key must fail authentication.
    let wrong = ice_frost::curve::Scalar::random();
    let wrong_shared = ice_frost::curve::GroupElement::basepoint_mul(&wrong);
    let r = ice_frost::secret_share::decrypt_share(&share_for_2, &wrong_shared);
    assert!(matches!(r, Err(ice_frost::Error::DecryptionError)));
}
