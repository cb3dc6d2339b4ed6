use blocknode::account::Account;
use blocknode::base58::{decode, encode, Base58Error};
use blocknode::protocol::{
    funds_cover_outputs, Address, Input, Keypair, Output, PublicKey, Signature, Transaction, TxHash,
};
use sha2::Digest;

fn keypair() -> Keypair {
    Keypair::from_secret([7u8; 32])
}

fn output(amount: u64, fill: u8) -> Output {
    Output { amount, creditor: Address::from_bytes(&[fill; 32]) }
}

fn input(fill: u8, index: u8) -> Input {
    Input { tx: TxHash::from_bytes(&[fill; 32]), index, signature: Signature::new() }
}

#[test]
fn address_bytes() {
    assert_eq!(Address::new().as_bytes(), &[0u8; 32]);
    let bytes: Vec<u8> = (0..32).collect();
    let a = Address::from_bytes(&bytes);
    assert_eq!(&a.as_bytes()[..], &bytes[..]);
    assert!(a == Address::from_bytes(&bytes));
    assert!(a != Address::new());
    assert!(Address::new() < a);
}

#[test]
fn address_display_is_base58() {
    assert_eq!(Address::new().display(), "1".repeat(32));
    let a = Address::from_bytes(&[255u8; 32]);
    assert_eq!(decode(a.display().as_bytes()).unwrap(), vec![255u8; 32]);
}

#[test]
fn tx_hash_bytes() {
    assert_eq!(TxHash::new().as_bytes(), &[0u8; 32]);
    let h = TxHash::from_bytes(&[3u8; 32]);
    assert_eq!(h.as_bytes(), &[3u8; 32]);
    assert!(TxHash::try_from_bytes(&[1u8; 31]).is_none());
    assert!(TxHash::try_from_bytes(&[1u8; 33]).is_none());
    assert!(TxHash::try_from_bytes(&[1u8; 32]).unwrap() == TxHash::from_bytes(&[1u8; 32]));
}

#[test]
fn base58_known_values() {
    assert_eq!(encode(b"abc"), "ZiCa");
    assert_eq!(encode(b""), "");
    assert_eq!(encode(&[0, 0, 1]), "112");
    assert_eq!(decode(b"ZiCa").unwrap(), b"abc".to_vec());
    assert_eq!(decode(b"112").unwrap(), vec![0, 0, 1]);
}

#[test]
fn base58_rejects_last_invalid_byte() {
    assert_eq!(decode(b"0bc"), Err(Base58Error::InvalidBase58Byte(b'0', 0)));
    assert_eq!(decode(b"OIl1"), Err(Base58Error::InvalidBase58Byte(b'l', 2)));
}

#[test]
fn canonical_bytes_layout() {
    let kp = keypair();
    let mut t = Transaction::new(kp.public());
    t.add_input(input(9, 4));
    t.add_output(output(0x0102030405060708, 5));
    let bytes = t.canonical_bytes();
    assert_eq!(bytes.len(), 32 + 33 + 40);
    assert_eq!(&bytes[..32], &kp.public().as_bytes()[..]);
    assert_eq!(&bytes[32..64], &[9u8; 32][..]);
    assert_eq!(bytes[64], 4);
    assert_eq!(&bytes[65..73], &[1, 2, 3, 4, 5, 6, 7, 8][..]);
    assert_eq!(&bytes[73..], &[5u8; 32][..]);
}

#[test]
fn hash_is_sha256_of_canonical_bytes() {
    let kp = keypair();
    let mut t = Transaction::new(kp.public());
    t.add_input(input(1, 0));
    t.add_output(output(879, 2));
    let digest = sha2::Sha256::digest(t.canonical_bytes());
    assert_eq!(&t.hash().as_bytes()[..], &digest[..]);
    // Re-encoding and rehashing gives the same digest.
    let again = Transaction::from_parts(t.debtor(), t.inputs().to_vec(), t.outputs().to_vec());
    assert!(again.hash() == t.hash());
    assert!(t.hash() == t.hash());
}

#[test]
fn hash_ignores_signatures() {
    let kp = keypair();
    let mut t = Transaction::new(kp.public());
    t.add_input(input(1, 0));
    t.add_output(output(10, 2));
    let before = t.hash();
    t.sign(kp);
    assert!(t.hash() == before);
}

#[test]
fn permuting_outputs_changes_hash() {
    let kp = keypair();
    let mut a = Transaction::new(kp.public());
    let mut b = Transaction::new(kp.public());
    a.add_input(input(1, 0));
    b.add_input(input(1, 0));
    a.add_output(output(1, 2));
    a.add_output(output(2, 3));
    b.add_output(output(2, 3));
    b.add_output(output(1, 2));
    assert!(a.canonical_bytes() != b.canonical_bytes());
    assert!(a.hash() != b.hash());
}

#[test]
fn has_inputs_and_outputs_is_structural() {
    let kp = keypair();
    let mut t = Transaction::new(kp.public());
    assert!(!t.has_inputs_and_outputs());
    t.add_output(output(1, 2));
    assert!(!t.has_inputs_and_outputs());
    t.add_input(input(1, 0));
    assert!(t.has_inputs_and_outputs());
}

#[test]
fn is_valid_false_without_inputs_or_outputs() {
    let kp = keypair();
    let owner = kp.public().address();
    let mut no_inputs = Transaction::new(kp.public());
    no_inputs.add_output(output(1, 2));
    no_inputs.sign(kp);
    assert!(!no_inputs.is_valid(&[]));
    let mut no_outputs = Transaction::new(kp.public());
    no_outputs.add_input(input(1, 0));
    no_outputs.sign(kp);
    assert!(!no_outputs.is_valid(&[Some(Output { amount: 5, creditor: owner })]));
}

#[test]
fn end_to_end_sign_and_verify() {
    let kp = keypair();
    let owner = kp.public().address();
    let creditor = Address::from_bytes(&[0xaa; 32]);
    let mut t = Transaction::new(kp.public());
    t.add_output(Output { amount: 879, creditor });
    assert!(!t.is_valid(&[]));
    let before = t.hash();
    t.add_input(Input { tx: TxHash::from_bytes(&[0x11; 32]), index: 0, signature: Signature::new() });
    let after = t.hash();
    assert!(before != after);
    let prior = [Some(Output { amount: 1000, creditor: owner })];
    assert!(!t.is_valid(&prior));
    t.sign(kp);
    assert!(t.verify_input(0));
    assert!(!t.verify_input(1));
    assert!(t.is_valid(&prior));
}

#[test]
fn signing_matches_ed25519() {
    let kp = keypair();
    let mut t = Transaction::new(kp.public());
    t.add_input(input(1, 0));
    t.add_output(output(5, 2));
    let mut view = Transaction::new(kp.public());
    view.add_input(input(1, 0));
    view.add_output(output(5, 2));
    let digest = view.hash();
    t.sign(kp);
    let key = ed25519_dalek::SigningKey::from_bytes(&[7u8; 32]);
    assert_eq!(kp.public().as_bytes(), &key.verifying_key().to_bytes());
    let expected = ed25519_dalek::Signer::sign(&key, &digest.as_bytes()[..]).to_bytes();
    assert_eq!(&t.inputs()[0].signature.as_bytes()[..], &expected[..]);
}

#[test]
fn every_input_verifies_after_signing() {
    let kp = keypair();
    let mut t = Transaction::new(kp.public());
    t.add_input(input(1, 0));
    t.add_input(input(2, 1));
    t.add_input(input(3, 7));
    t.add_output(output(5, 2));
    t.add_output(output(6, 4));
    assert!(!t.verify_input(0));
    t.sign(kp);
    for i in 0..3 {
        assert!(t.verify_input(i));
    }
}

#[test]
fn changed_amount_breaks_every_signature() {
    let kp = keypair();
    let mut t = Transaction::new(kp.public());
    t.add_input(input(1, 0));
    t.add_input(input(2, 1));
    t.add_output(output(5, 2));
    t.add_output(output(6, 4));
    t.sign(kp);
    let mut outputs = t.outputs().to_vec();
    outputs[1].amount = 7;
    let edited = Transaction::from_parts(t.debtor(), t.inputs().to_vec(), outputs);
    assert!(!edited.verify_input(0));
    assert!(!edited.verify_input(1));
}

#[test]
fn signature_by_other_key_does_not_verify() {
    let other = Keypair::from_secret([8u8; 32]);
    let kp = keypair();
    let mut t = Transaction::new(kp.public());
    t.add_input(input(1, 0));
    t.add_output(output(5, 2));
    t.sign(other);
    assert!(!t.verify_input(0));
}

fn signed_spend(amount_out: u64) -> (Transaction, Address) {
    let kp = keypair();
    let owner = kp.public().address();
    let mut t = Transaction::new(kp.public());
    t.add_input(input(1, 0));
    t.add_input(input(2, 3));
    t.add_output(output(amount_out, 2));
    t.sign(kp);
    (t, owner)
}

#[test]
fn is_valid_accepts_a_covered_spend() {
    let (t, owner) = signed_spend(100);
    let prior = vec![
        Some(Output { amount: 60, creditor: owner }),
        Some(Output { amount: 40, creditor: owner }),
    ];
    assert!(t.is_valid(&prior));
    let with_fee = vec![
        Some(Output { amount: 60, creditor: owner }),
        Some(Output { amount: 45, creditor: owner }),
    ];
    assert!(t.is_valid(&with_fee));
}

#[test]
fn is_valid_rejects_overspend() {
    let (t, owner) = signed_spend(101);
    let prior = vec![
        Some(Output { amount: 60, creditor: owner }),
        Some(Output { amount: 40, creditor: owner }),
    ];
    assert!(!t.is_valid(&prior));
}

#[test]
fn is_valid_rejects_unknown_or_foreign_outputs() {
    let (t, owner) = signed_spend(10);
    assert!(!t.is_valid(&[Some(Output { amount: 60, creditor: owner }), None]));
    let stranger = Address::from_bytes(&[1u8; 32]);
    assert!(!t.is_valid(&[
        Some(Output { amount: 60, creditor: owner }),
        Some(Output { amount: 60, creditor: stranger }),
    ]));
    assert!(!t.is_valid(&[Some(Output { amount: 60, creditor: owner })]));
}

#[test]
fn is_valid_rejects_unsigned_inputs() {
    let kp = keypair();
    let owner = kp.public().address();
    let mut t = Transaction::new(kp.public());
    t.add_input(input(1, 0));
    t.add_output(output(1, 2));
    assert!(!t.is_valid(&[Some(Output { amount: 5, creditor: owner })]));
    t.sign(kp);
    assert!(t.is_valid(&[Some(Output { amount: 5, creditor: owner })]));
}

#[test]
fn is_valid_sums_large_amounts() {
    let (t, owner) = signed_spend(u64::MAX);
    let prior = vec![
        Some(Output { amount: u64::MAX, creditor: owner }),
        Some(Output { amount: u64::MAX, creditor: owner }),
    ];
    assert!(t.is_valid(&prior));
}

#[test]
fn address_is_sha256_of_public_key() {
    let kp = keypair();
    let digest = sha2::Sha256::digest(kp.public().as_bytes());
    assert_eq!(&kp.public().address().as_bytes()[..], &digest[..]);
}

#[test]
fn public_key_bytes_round_trip() {
    let pk = PublicKey::from_bytes(&[4u8; 32]);
    assert_eq!(pk.as_bytes(), &[4u8; 32]);
    assert_eq!(decode(pk.display().as_bytes()).unwrap(), vec![4u8; 32]);
}

#[test]
fn account_keys() {
    let acct = Account::from_bytes(&"alice".to_string(), &[7u8; 32]);
    assert_eq!(acct.name(), "alice");
    assert_eq!(acct.to_bytes(), [7u8; 32]);
    assert!(acct.public_key() == keypair().public());
    assert!(acct.keypair().public() == acct.public_key());
}

#[test]
fn funds_cover_exact_and_with_fee() {
    let owner = Address::from_bytes(&[6u8; 32]);
    let prior = [Some(Output { amount: 30, creditor: owner }), Some(Output { amount: 12, creditor: owner })];
    assert!(funds_cover_outputs(&prior, &owner, &[output(42, 1)]));
    assert!(funds_cover_outputs(&prior, &owner, &[output(40, 1), output(1, 2)]));
    assert!(!funds_cover_outputs(&prior, &owner, &[output(40, 1), output(3, 2)]));
    assert!(funds_cover_outputs(&[], &owner, &[]));
    assert!(!funds_cover_outputs(&[], &owner, &[output(1, 1)]));
}

#[test]
fn funds_cover_needs_owned_resolved_outputs() {
    let owner = Address::from_bytes(&[6u8; 32]);
    let other = Address::from_bytes(&[5u8; 32]);
    assert!(!funds_cover_outputs(&[None], &owner, &[]));
    assert!(!funds_cover_outputs(&[Some(Output { amount: 9, creditor: other })], &owner, &[output(1, 1)]));
}
