use ice_frost::curve::{GroupElement, Scalar};
use ice_frost::keys::IndividualVerifyingKey;
use ice_frost::secret_share::{SecretShare, VerifiableSecretSharingCommitment};
use ice_frost::utils::{calculate_lagrange_coefficients, hash_to_array, hash_to_field};
use ice_frost::nizk::NizkPokOfSecretKey;
use ice_frost::parameters::ThresholdParameters;
use ice_frost::Error;

#[test]
fn lagrange_rejects_empty_and_repeated_sets() {
    let empty: [u32; 0] = [];
    assert!(matches!(
        calculate_lagrange_coefficients(1, &empty),
        Err(Error::DuplicateShares)
    ));
    assert!(matches!(
        calculate_lagrange_coefficients(2, &[1, 2, 3, 2]),
        Err(Error::DuplicateShares)
    ));
    assert!(calculate_lagrange_coefficients(1, &[1, 2, 3]).is_ok());
}

#[test]
fn lagrange_interpolates_constant_term() {
    // p(x) = a + b x + c x^2, interpolation set {1, 2, 3}:
    // the weighted sum of the evaluations recovers p(0) = a.
    let a = Scalar::random();
    let b = Scalar::random();
    let c = Scalar::random();
    let eval = |x: u32| -> Scalar {
        let xs = Scalar::from_index(x);
        a.plus(&xs.times(&b.plus(&xs.times(&c))))
    };
    let indices = [1u32, 2, 3];
    let mut sum = Scalar::from_index(0);
    for &j in &indices {
        let lambda = calculate_lagrange_coefficients(j, &indices).unwrap();
        sum = sum.plus(&lambda.times(&eval(j)));
    }
    assert!(sum == a);
}

#[test]
fn hashes_are_deterministic_and_input_sensitive() {
    let d1 = hash_to_array(b"ctx", b"message").unwrap();
    let d2 = hash_to_array(b"ctx", b"message").unwrap();
    assert!(d1 == d2);
    assert!(d1.len() == 32);
    let d3 = hash_to_array(b"ctx", b"other").unwrap();
    assert!(d1 != d3);

    let s1 = hash_to_field(b"ctx", b"message").unwrap();
    let s2 = hash_to_field(b"ctx", b"message").unwrap();
    let s3 = hash_to_field(b"ctx", b"other").unwrap();
    assert!(s1 == s2);
    assert!(s1 != s3);
}

#[test]
fn feldman_check_accepts_honest_share_and_rejects_forgery() {
    // A degree-2 polynomial and its commitment.
    let coeffs = [Scalar::random(), Scalar::random(), Scalar::random()];
    let mut points = Vec::new();
    for c in &coeffs {
        points.push(GroupElement::basepoint_mul(c));
    }
    let commitment = VerifiableSecretSharingCommitment { index: 1, points };
    let eval = |x: u32| -> Scalar {
        let xs = Scalar::from_index(x);
        coeffs[0].plus(&xs.times(&coeffs[1].plus(&xs.times(&coeffs[2]))))
    };
    let good = SecretShare {
        sender_index: 1,
        receiver_index: 4,
        polynomial_evaluation: eval(4),
    };
    assert!(good.verify(&commitment).is_ok());
    let bad = SecretShare {
        sender_index: 1,
        receiver_index: 4,
        polynomial_evaluation: eval(4).plus(&Scalar::from_index(1)),
    };
    assert!(matches!(bad.verify(&commitment), Err(Error::InvalidShare)));
}

#[test]
fn verification_share_reconstruction() {
    // Two dealers with degree-1 polynomials; the verification share that
    // the commitments determine must match the Lagrange-weighted secret.
    let polys = [[Scalar::random(), Scalar::random()], [Scalar::random(), Scalar::random()]];
    let mut commitments = Vec::new();
    for (j, p) in polys.iter().enumerate() {
        let mut points = Vec::new();
        for c in p {
            points.push(GroupElement::basepoint_mul(c));
        }
        commitments.push(VerifiableSecretSharingCommitment { index: (j + 1) as u32, points });
    }
    let target = 5u32;
    let indices = [1u32, 2];
    let mut expected = Scalar::from_index(0);
    for (j, p) in polys.iter().enumerate() {
        let lambda = calculate_lagrange_coefficients((j + 1) as u32, &indices).unwrap();
        let xs = Scalar::from_index(target);
        let eval = p[0].plus(&xs.times(&p[1]));
        expected = expected.plus(&lambda.times(&eval));
    }
    let vk = IndividualVerifyingKey::generate_from_commitments(target, &commitments);
    assert!(vk.share == GroupElement::basepoint_mul(&expected));
    assert!(vk.verify(&commitments).is_ok());

    let wrong = IndividualVerifyingKey {
        index: target,
        share: GroupElement::basepoint_mul(&expected.plus(&Scalar::from_index(1))),
    };
    assert!(matches!(
        wrong.verify(&commitments),
        Err(Error::ShareVerificationError)
    ));
}

#[test]
fn invalid_parameters_rejected() {
    assert!(matches!(ThresholdParameters::new(0, 0), Err(Error::InvalidParameters)));
    assert!(matches!(ThresholdParameters::new(3, 0), Err(Error::InvalidParameters)));
    assert!(matches!(ThresholdParameters::new(2, 3), Err(Error::InvalidParameters)));
    assert!(ThresholdParameters::new(3, 3).is_ok());
}

#[test]
fn nizk_proof_rejects_wrong_index_and_key() {
    let secret = Scalar::random();
    let public = GroupElement::basepoint_mul(&secret);
    let pok = NizkPokOfSecretKey::prove(3, &secret, &public).unwrap();
    assert!(pok.verify(3, &public).is_ok());
    // The index is bound into the challenge.
    assert!(matches!(
        pok.verify(4, &public),
        Err(Error::InvalidProofOfKnowledge)
    ));
    // A proof does not transfer to another key.
    let other = GroupElement::basepoint_mul(&Scalar::random());
    assert!(matches!(
        pok.verify(3, &other),
        Err(Error::InvalidProofOfKnowledge)
    ));
}
