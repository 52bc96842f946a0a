use crowdloan_rewards::signature::{challenge_message, verify_proof, KeyPair};
use sp_core::{ed25519, Pair};

fn unhex<const N: usize>(text: &str) -> [u8; N] {
    let digits = text.as_bytes();
    assert_eq!(digits.len(), 2 * N);
    let mut out = [0u8; N];
    for i in 0..N {
        let high = (digits[2 * i] as char).to_digit(16).unwrap() as u8;
        let low = (digits[2 * i + 1] as char).to_digit(16).unwrap() as u8;
        out[i] = high * 16 + low;
    }
    out
}

const VECTOR_SEED: &str = "9d61b19deffd5a60ba844af492ec2cc44449c5697b326919703bac031cae7f60";
const VECTOR_PUBLIC: &str = "d75a980182b10ab7d54bfed3c964073a0ee172f3daa62325af021a68f707511a";
const VECTOR_SIGNATURE: &str = "e5564300c360ac729086e2cc806e828a84877f1eb8e5d974d873e065224901555fb8821590a33bacc61e39701cf9b46bd25bf5f0595bbe24655141438e7a100b";

#[test]
fn challenge_is_the_network_followed_by_the_account_in_little_endian() {
    assert_eq!(
        challenge_message(b"test-", 1),
        vec![b't', b'e', b's', b't', b'-', 1, 0, 0, 0, 0, 0, 0, 0]
    );
    assert_eq!(
        challenge_message(b"", 0x0102030405060708),
        vec![8, 7, 6, 5, 4, 3, 2, 1]
    );
    assert_eq!(challenge_message(b"ab", u64::MAX), vec![b'a', b'b', 255, 255, 255, 255, 255, 255, 255, 255]);
}

#[test]
fn challenges_of_different_accounts_or_networks_differ() {
    assert_ne!(challenge_message(b"test-", 1), challenge_message(b"test-", 2));
    assert_ne!(challenge_message(b"test-", 1), challenge_message(b"live-", 1));
    assert_ne!(challenge_message(b"test", 1), challenge_message(b"test-", 1));
}

#[test]
fn key_pair_of_the_reference_seed_has_the_reference_public_key() {
    let pair = KeyPair::from_seed(unhex::<32>(VECTOR_SEED));
    assert_eq!(pair.public(), unhex::<32>(VECTOR_PUBLIC));
    assert_eq!(pair.seed(), unhex::<32>(VECTOR_SEED));
}

#[test]
fn key_pair_signs_the_reference_signature() {
    let pair = KeyPair::from_seed(unhex::<32>(VECTOR_SEED));
    assert_eq!(pair.sign(b""), unhex::<64>(VECTOR_SIGNATURE));
    assert_ne!(pair.sign(b"x"), unhex::<64>(VECTOR_SIGNATURE));
}

#[test]
fn key_pair_agrees_with_the_pair_it_wraps() {
    let seed = *b"12345678901234567890123456789012";
    let ours = KeyPair::from_seed(seed);
    let theirs = ed25519::Pair::from_seed(&seed);
    assert_eq!(ours.public(), theirs.public().0);
    assert_eq!(ours.sign(b"Something important"), theirs.sign(b"Something important").0);
    assert_eq!(
        ours.sign_challenge(b"test-", 9),
        theirs.sign(&challenge_message(b"test-", 9)).0
    );
}

#[test]
fn proof_for_the_right_account_and_network_is_accepted() {
    let pair = KeyPair::from_seed([7u8; 32]);
    let signature = pair.sign_challenge(b"test-", 1);
    assert!(verify_proof(b"test-", 1, &pair.public(), &signature));
}

#[test]
fn proof_is_rejected_for_another_account() {
    let pair = KeyPair::from_seed([7u8; 32]);
    let signature = pair.sign_challenge(b"test-", 1);
    assert!(!verify_proof(b"test-", 2, &pair.public(), &signature));
    assert!(!verify_proof(b"test-", 0, &pair.public(), &signature));
    assert!(!verify_proof(b"test-", 1 << 32, &pair.public(), &signature));
}

#[test]
fn proof_is_rejected_on_another_network() {
    let pair = KeyPair::from_seed([7u8; 32]);
    let signature = pair.sign_challenge(b"test-", 1);
    assert!(!verify_proof(b"live-", 1, &pair.public(), &signature));
    assert!(!verify_proof(b"test", 1, &pair.public(), &signature));
    assert!(!verify_proof(b"", 1, &pair.public(), &signature));
}

#[test]
fn proof_is_rejected_for_another_identity() {
    let pair = KeyPair::from_seed([7u8; 32]);
    let other = KeyPair::from_seed([8u8; 32]);
    let signature = pair.sign_challenge(b"test-", 1);
    assert!(!verify_proof(b"test-", 1, &other.public(), &signature));
}

#[test]
fn damaged_signature_is_rejected() {
    let pair = KeyPair::from_seed([7u8; 32]);
    let mut signature = pair.sign_challenge(b"test-", 1);
    signature[10] ^= 1;
    assert!(!verify_proof(b"test-", 1, &pair.public(), &signature));
    assert!(!verify_proof(b"test-", 1, &pair.public(), &[0u8; 64]));
    assert!(!verify_proof(b"test-", 1, &pair.public(), &[255u8; 64]));
}

#[test]
fn signature_of_a_bare_message_is_no_proof() {
    let pair = KeyPair::from_seed([7u8; 32]);
    let signature = pair.sign(b"test-");
    assert!(!verify_proof(b"test-", 1, &pair.public(), &signature));
    let exact = pair.sign(&challenge_message(b"test-", 1));
    assert!(verify_proof(b"test-", 1, &pair.public(), &exact));
}

#[test]
fn reference_signature_verifies_as_a_proof_over_its_own_challenge() {
    let public = unhex::<32>(VECTOR_PUBLIC);
    let signature = unhex::<64>(VECTOR_SIGNATURE);
    assert!(!verify_proof(b"", 0, &public, &signature));
    assert!(ed25519::Pair::verify(
        &ed25519::Signature::from_raw(signature),
        b"",
        &ed25519::Public::from_raw(public)
    ));
}
