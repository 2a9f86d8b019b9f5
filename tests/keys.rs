use fuel_vanity::address::{
    derive_address, get_address_from_private_key, get_address_from_private_key_case_sensitive,
    verify_key_address_pair,
};
use fuel_vanity::VanityError;
use sha2::Digest;

const KEY_ONE: &str = "0000000000000000000000000000000000000000000000000000000000000001";

fn expected_address_of_one() -> String {
    let mut secret = [0u8; 32];
    secret[31] = 1;
    let key = fuel_crypto::SecretKey::try_from(&secret[..]).unwrap();
    let public = fuel_crypto::PublicKey::from(&key);
    format!("0x{}", hex::encode(sha2::Sha256::digest(public.as_ref())))
}

#[test]
fn address_is_hash_of_public_key() {
    let address = get_address_from_private_key(KEY_ONE).unwrap();
    assert_eq!(address, expected_address_of_one());
    assert_eq!(address.len(), 66);
    assert!(address.starts_with("0x"));
}

#[test]
fn short_keys_are_left_padded() {
    assert_eq!(get_address_from_private_key("1").unwrap(), expected_address_of_one());
    let tagged = format!("0x{}", KEY_ONE);
    assert_eq!(get_address_from_private_key(&tagged).unwrap(), expected_address_of_one());
}

#[test]
fn preserved_case_differs_only_in_case() {
    let lower = get_address_from_private_key_case_sensitive(KEY_ONE, false).unwrap();
    let mixed = get_address_from_private_key_case_sensitive(KEY_ONE, true).unwrap();
    assert_eq!(lower.to_lowercase(), mixed.to_lowercase());
    assert!(verify_key_address_pair(KEY_ONE, &mixed));
}

#[test]
fn invalid_keys_are_refused() {
    assert_eq!(get_address_from_private_key("zz"), Err(VanityError::InvalidKey));
    assert_eq!(get_address_from_private_key("0"), Err(VanityError::InvalidKey));
    let too_big = "f".repeat(64);
    assert_eq!(get_address_from_private_key(&too_big), Err(VanityError::InvalidKey));
    let too_long = "1".repeat(66);
    assert_eq!(get_address_from_private_key(&too_long), Err(VanityError::InvalidKey));
}

#[test]
fn derive_address_checks_the_scalar() {
    assert_eq!(derive_address(&[0u8; 32], false), None);
    assert_eq!(derive_address(&[0xffu8; 32], false), None);
    assert_eq!(derive_address(&[1u8; 31], false), None);
    let mut secret = [0u8; 32];
    secret[31] = 1;
    assert_eq!(derive_address(&secret, false), Some(expected_address_of_one()));
    assert_eq!(derive_address(&secret, true).map(|a| a.len()), Some(66));
}

#[test]
fn verification_round_trip() {
    let address = expected_address_of_one();
    let tagged = format!("0x{}", KEY_ONE);
    assert!(verify_key_address_pair(&tagged, &address));
    assert!(verify_key_address_pair(KEY_ONE, &address.to_uppercase().replacen("0X", "0x", 1)));
    assert!(verify_key_address_pair(&format!("0x0x{}", KEY_ONE), &address));
}

#[test]
fn verification_rejects_mismatches() {
    let address = expected_address_of_one();
    let other = format!("0x{}", "0".repeat(63) + "2");
    assert!(!verify_key_address_pair(&other, &address));
    assert!(!verify_key_address_pair("0xzz", &address));
    assert!(!verify_key_address_pair("01", &address));
    assert!(!verify_key_address_pair(KEY_ONE, "0x00"));
}
