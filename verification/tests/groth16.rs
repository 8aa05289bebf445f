use veil_core::groth16::{
    le_to_be_32, le_to_be_g1, le_to_be_g2, negate_g1, verify_groth16_withdraw, Groth16Error,
    Groth16Proof, WithdrawPublicInputs, BASE_FIELD_MODULUS,
};
use veil_core::vk;

#[test]
fn test_proof_parsing() {
    let mut proof_bytes = [0u8; 256];
    // Set some test values
    proof_bytes[0] = 1;
    proof_bytes[64] = 2;
    proof_bytes[192] = 3;

    let parsed = Groth16Proof::from_bytes(&proof_bytes).unwrap();
    assert_eq!(parsed.a[0], 1);
    assert_eq!(parsed.b[0], 2);
    assert_eq!(parsed.c[0], 3);
}

#[test]
fn test_proof_too_short() {
    let proof_bytes = [0u8; 128]; // Too short
    assert!(Groth16Proof::from_bytes(&proof_bytes).is_none());
}

#[test]
fn test_le_to_be_conversion() {
    let le = [
        1u8, 2, 3, 4, 0, 0, 0, 0, 0, 0, 0, 0, 0, 0, 0, 0, 0, 0, 0, 0, 0, 0, 0, 0, 0, 0, 0, 0, 0,
        0, 0, 0,
    ];
    let be = le_to_be_32(&le);
    assert_eq!(be[31], 1);
    assert_eq!(be[30], 2);
    assert_eq!(be[29], 3);
    assert_eq!(be[28], 4);
}

#[test]
fn test_le_to_be_involutions() {
    let mut buf32 = [0u8; 32];
    let mut buf64 = [0u8; 64];
    let mut buf128 = [0u8; 128];
    for i in 0..32 {
        buf32[i] = (i * 7 + 3) as u8;
    }
    for i in 0..64 {
        buf64[i] = (i * 5 + 1) as u8;
    }
    for i in 0..128 {
        buf128[i] = (i * 3 + 11) as u8;
    }

    assert_eq!(le_to_be_32(&le_to_be_32(&buf32)), buf32);
    assert_eq!(le_to_be_g1(&le_to_be_g1(&buf64)), buf64);
    assert_eq!(le_to_be_g2(&le_to_be_g2(&buf128)), buf128);
}

#[test]
fn test_le_to_be_g2_reverses_limbs_independently() {
    let mut le = [0u8; 128];
    le[0] = 0xaa; // x.c0 low byte
    le[32] = 0xbb; // x.c1 low byte
    le[64] = 0xcc; // y.c0 low byte
    le[96] = 0xdd; // y.c1 low byte
    let be = le_to_be_g2(&le);
    assert_eq!(be[31], 0xaa);
    assert_eq!(be[63], 0xbb);
    assert_eq!(be[95], 0xcc);
    assert_eq!(be[127], 0xdd);
}

#[test]
fn test_negate_g1_small_y() {
    // y = 1 gives y_neg = p - 1: the modulus bytes with the last one down
    // by one; x passes through untouched.
    let mut point = [0u8; 64];
    point[5] = 0x17; // arbitrary x bytes
    point[63] = 1; // y = 1

    let negated = negate_g1(&point);
    assert_eq!(negated[..32], point[..32]);
    let mut expected_y = BASE_FIELD_MODULUS;
    expected_y[31] = 0x46; // 0x47 - 1
    assert_eq!(negated[32..], expected_y[..]);
}

#[test]
fn test_negate_g1_involution() {
    let mut point = [0u8; 64];
    for i in 0..32 {
        point[i] = (i * 13 + 5) as u8;
    }
    // keep y well below the modulus so it is a plausible coordinate
    for i in 32..64 {
        point[i] = (i % 7) as u8;
    }

    let negated = negate_g1(&point);
    assert_eq!(negated[..32], point[..32]);
    assert_ne!(negated[32..], point[32..]);
    assert_eq!(negate_g1(&negated), point);
}

#[test]
fn test_proof_roundtrip() {
    let mut proof_bytes = [0u8; 256];
    for i in 0..256 {
        proof_bytes[i] = (i * 11 + 2) as u8;
    }
    let parsed = Groth16Proof::from_bytes(&proof_bytes).unwrap();
    assert_eq!(parsed.to_bytes()[..], proof_bytes[..]);
}

#[test]
fn test_to_verifier_inputs_order() {
    let inputs = WithdrawPublicInputs {
        root: [1u8; 32],
        nullifier_hash: [2u8; 32],
        recipient: [3u8; 32],
        amount: [4u8; 32],
    };
    let ordered = inputs.to_verifier_inputs();
    assert_eq!(ordered[0], [1u8; 32]);
    assert_eq!(ordered[1], [2u8; 32]);
    assert_eq!(ordered[2], [3u8; 32]);
    assert_eq!(ordered[3], [4u8; 32]);
}

#[test]
fn test_short_proof_rejected_before_any_curve_work() {
    // A 128-byte buffer fails the size check; no elliptic-curve call runs.
    let short = [0u8; 128];
    let zero = [0u8; 32];
    let result = verify_groth16_withdraw(&short, &zero, &zero, &zero, &zero);
    assert_eq!(result, Err(Groth16Error::InvalidProofSize));
}

#[test]
fn test_malformed_points_fail_pairing() {
    // A full-size buffer whose B limb is no G2 point reaches the pairing
    // call and is rejected there.
    let mut proof_bytes = [0u8; 256];
    for i in 64..192 {
        proof_bytes[i] = 1;
    }
    let zero = [0u8; 32];
    let result = verify_groth16_withdraw(&proof_bytes, &zero, &zero, &zero, &zero);
    assert_eq!(result, Err(Groth16Error::PairingFailed));
}

#[test]
fn test_mismatched_valid_points_rejected() {
    // Borrow curve points from the verifying key so every parse succeeds:
    // A = alpha, B = beta, C = IC[0]. The pairing product is not the
    // identity, so verification reports a clean rejection.
    let mut proof_bytes = [0u8; 256];
    proof_bytes[0..64].copy_from_slice(&vk::ALPHA_G1);
    proof_bytes[64..192].copy_from_slice(&vk::BETA_G2);
    proof_bytes[192..256].copy_from_slice(&vk::IC[0]);

    let inputs = WithdrawPublicInputs {
        root: [0u8; 32],
        nullifier_hash: [0u8; 32],
        recipient: [0u8; 32],
        amount: [0u8; 32],
    };
    let ordered = inputs.to_verifier_inputs();
    let result = verify_groth16_withdraw(
        &proof_bytes,
        &ordered[0],
        &ordered[1],
        &ordered[2],
        &ordered[3],
    );
    assert_eq!(result, Ok(false));
}
