use starknet_crypto::FieldElement;
use stone_prover_cli::felt::Felt;

fn felt_from_hex(s: &str) -> Felt {
    let fe = FieldElement::from_hex_be(s).unwrap();
    Felt::from_bytes_be(&fe.to_bytes_be().to_vec()).unwrap()
}

#[test]
fn from_u64_round_trips_through_bytes() {
    let f = Felt::from_u64(0xdead_beef_1234_5678);
    let bytes = f.to_bytes_be();
    assert_eq!(bytes.len(), 32);
    let g = Felt::from_bytes_be(&bytes).unwrap();
    assert_eq!(g.to_bytes_be(), bytes);
    let fe = FieldElement::from(0xdead_beef_1234_5678u64);
    assert_eq!(bytes, fe.to_bytes_be().to_vec());
}

#[test]
fn from_u64_zero_is_all_zero_bytes() {
    let f = Felt::from_u64(0);
    assert_eq!(f.to_bytes_be(), vec![0u8; 32]);
}

#[test]
fn from_bytes_be_rejects_wrong_length() {
    assert!(Felt::from_bytes_be(&vec![0u8; 31]).is_none());
    assert!(Felt::from_bytes_be(&vec![0u8; 33]).is_none());
    assert!(Felt::from_bytes_be(&Vec::new()).is_none());
}

#[test]
fn from_bytes_be_rejects_the_prime_and_above() {
    // The prime: 2^251 + 17 * 2^192 + 1, big-endian.
    let mut prime = vec![0u8; 32];
    prime[0] = 0x08;
    prime[7] = 0x11;
    prime[31] = 0x01;
    assert!(Felt::from_bytes_be(&prime).is_none());
    let mut above = prime.clone();
    above[31] = 0x02;
    assert!(Felt::from_bytes_be(&above).is_none());
    let mut max = vec![0xffu8; 32];
    max[0] = 0xff;
    assert!(Felt::from_bytes_be(&max).is_none());
    // One below the prime is canonical.
    let mut below = prime.clone();
    below[31] = 0x00;
    let f = Felt::from_bytes_be(&below).unwrap();
    assert_eq!(f.to_bytes_be(), below);
}

#[test]
fn from_be_digits_matches_field_element_conversion() {
    let name = b"range_check".to_vec();
    let f = Felt::from_be_digits(&name);
    let fe = FieldElement::from_byte_slice_be(b"range_check").unwrap();
    assert_eq!(f.to_bytes_be(), fe.to_bytes_be().to_vec());
}

#[test]
fn to_hex_matches_field_element_formatting() {
    for value in [0u64, 1, 15, 16, 255, 256, 4096, 0xdead_beef, u64::MAX] {
        let ours = Felt::from_u64(value).to_hex();
        let theirs = format!("{:#x}", FieldElement::from(value));
        assert_eq!(ours, theirs);
    }
}

#[test]
fn to_hex_of_small_values() {
    assert_eq!(Felt::from_u64(0).to_hex(), "0x0");
    assert_eq!(Felt::from_u64(10).to_hex(), "0xa");
    assert_eq!(Felt::from_u64(255).to_hex(), "0xff");
    assert_eq!(Felt::from_u64(256).to_hex(), "0x100");
}

#[test]
fn to_hex_of_a_wide_value() {
    let f = felt_from_hex("30e480bed5fe53fa909cc0f8c4d99b8f9f2c016be4c41e13a4848797979c662");
    assert_eq!(
        f.to_hex(),
        "0x30e480bed5fe53fa909cc0f8c4d99b8f9f2c016be4c41e13a4848797979c662"
    );
}
