use aes::cipher::generic_array::GenericArray;
use aes::cipher::{BlockEncrypt, KeyInit};
use aes::Aes128;
use base64::Engine;
use rmap::token::{decrypt_token, encrypt_token};

const TOKEN: &str = "the-quick-brown-fox-jumps-over-lazy-dogs";

fn key() -> [u8; 16] {
    [1, 2, 3, 4, 5, 6, 7, 8, 9, 10, 11, 12, 13, 14, 15, 16]
}

#[test]
fn sealed_token_has_the_promised_layout() {
    let sealed = encrypt_token(TOKEN, key());
    assert_eq!(sealed.len(), 56);
    let cipher = Aes128::new(&GenericArray::from(key()));
    let mut front = GenericArray::clone_from_slice(TOKEN[0..16].as_bytes());
    let mut back = GenericArray::clone_from_slice(TOKEN[24..40].as_bytes());
    cipher.encrypt_block(&mut front);
    cipher.encrypt_block(&mut back);
    let engine = base64::engine::general_purpose::STANDARD;
    let expected = format!("{}{}{}", engine.encode(front), engine.encode(back), &TOKEN[16..24]);
    assert_eq!(sealed, expected);
    assert_ne!(&sealed[0..24], &engine.encode(&TOKEN.as_bytes()[0..16]));
}

#[test]
fn sealed_token_opens_to_the_token() {
    let sealed = encrypt_token(TOKEN, key());
    assert_eq!(decrypt_token(&sealed, key()), Some(TOKEN.to_string()));
}

#[test]
fn sealing_keeps_only_forty_bytes() {
    let long = format!("{}extra", TOKEN);
    let sealed = encrypt_token(&long, key());
    assert_eq!(decrypt_token(&sealed, key()), Some(TOKEN.to_string()));
}

#[test]
fn opening_rejects_non_base64() {
    let bad = "!".repeat(56);
    assert_eq!(decrypt_token(&bad, key()), None);
}

#[test]
fn opening_rejects_wrong_block_length() {
    // Twenty-four base64 characters without padding decode to 18 bytes.
    let sealed = format!("{}{}12345678", "A".repeat(24), "A".repeat(24));
    assert_eq!(decrypt_token(&sealed, key()), None);
}

#[test]
fn opening_with_another_key_fails_or_differs() {
    let sealed = encrypt_token(TOKEN, key());
    let other = decrypt_token(&sealed, [0u8; 16]);
    assert_ne!(other, Some(TOKEN.to_string()));
}
