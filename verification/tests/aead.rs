use pqfs::crypto::aead::seal_with_nonce;
use pqfs::crypto::aead::unseal;
use pqfs::crypto::keys::SecretKey;
use pqfs::crypto::Crypto;
use pqfs::error::CryptoError;

fn crypto() -> Crypto {
    let (crypto, _) = Crypto::init("test-password", false).unwrap();
    crypto
}

fn fixed() -> Crypto {
    Crypto::from_master_key(&[7u8; 32]).unwrap()
}

#[test]
fn encrypt_decrypt_roundtrip() {
    let crypto = crypto();
    let plaintext = b"hello quantum world";
    let ciphertext = crypto.encrypt(plaintext).unwrap();
    let decrypted = crypto.decrypt(&ciphertext).unwrap();
    assert_eq!(decrypted, plaintext);
}

#[test]
fn encrypt_decrypt_with_per_file_key_roundtrip() {
    let crypto = crypto();
    let content_key = crypto.random_key();
    let plaintext = b"per-file secret";
    let ciphertext = crypto.encrypt_with_key(content_key.as_slice(), plaintext).unwrap();
    let decrypted = crypto.decrypt_with_key(content_key.as_slice(), &ciphertext).unwrap();
    assert_eq!(decrypted, plaintext);
}

#[test]
fn decrypt_rejects_tampered_ciphertext() {
    let crypto = crypto();
    let mut ciphertext = crypto.encrypt(b"secret").unwrap();
    let last = ciphertext.len() - 1;
    ciphertext[last] ^= 1;
    assert!(crypto.decrypt(&ciphertext).is_err());
}

#[test]
fn decrypt_rejects_short_ciphertext() {
    let crypto = crypto();
    assert!(crypto.decrypt(&[0u8; 10]).is_err());
}

#[test]
fn sealing_adds_forty_bytes_and_draws_a_nonce_each_time() {
    let crypto = fixed();
    let a = crypto.encrypt(b"same").unwrap();
    let b = crypto.encrypt(b"same").unwrap();
    assert_eq!(a.len(), 44);
    assert_eq!(b.len(), 44);
    assert_ne!(a, b);
    assert_eq!(crypto.encrypt(b"").unwrap().len(), 40);
}

#[test]
fn shortest_blob_is_forty_bytes() {
    let crypto = fixed();
    assert_eq!(crypto.decrypt(&[0u8; 39]), Err(CryptoError::TooShort));
    assert_eq!(crypto.decrypt(&[0u8; 40]), Err(CryptoError::Decryption));
    let blob = crypto.encrypt(b"").unwrap();
    assert_eq!(crypto.decrypt(&blob), Ok(Vec::new()));
}

#[test]
fn keys_of_another_length_are_refused() {
    let crypto = fixed();
    assert_eq!(crypto.encrypt_with_key(&[1u8; 31], b"x"), Err(CryptoError::KeyLength));
    assert_eq!(crypto.encrypt_with_key(&[1u8; 33], b"x"), Err(CryptoError::KeyLength));
    assert_eq!(crypto.decrypt_with_key(&[1u8; 31], &[0u8; 40]), Err(CryptoError::KeyLength));
    assert_eq!(crypto.decrypt_with_key(&[1u8; 31], &[0u8; 39]), Err(CryptoError::TooShort));
    assert!(matches!(Crypto::from_master_key(&[1u8; 16]), Err(CryptoError::KeyLength)));
}

#[test]
fn a_block_opens_only_at_its_own_index() {
    let crypto = fixed();
    let key = [3u8; 32];
    let record = crypto.encrypt_block(&key, 5, b"block five").unwrap();
    assert_eq!(crypto.decrypt_block(&key, 5, &record).unwrap(), b"block five");
    assert_eq!(crypto.decrypt_block(&key, 6, &record), Err(CryptoError::Decryption));
    assert_eq!(crypto.decrypt_with_key(&key, &record), Err(CryptoError::Decryption));
}

#[test]
fn another_key_does_not_open_a_blob() {
    let blob = fixed().encrypt(b"payload").unwrap();
    let other = Crypto::from_master_key(&[8u8; 32]).unwrap();
    assert_eq!(other.decrypt(&blob), Err(CryptoError::Decryption));
}

#[test]
fn sealing_matches_the_published_vector() {
    let mut key = [0u8; 32];
    for i in 0..32 {
        key[i] = 0x80 + i as u8;
    }
    let mut nonce = [0u8; 24];
    for i in 0..24 {
        nonce[i] = 0x40 + i as u8;
    }
    let aad = [0x50, 0x51, 0x52, 0x53, 0xc0, 0xc1, 0xc2, 0xc3, 0xc4, 0xc5, 0xc6, 0xc7];
    let msg = b"Ladies and Gentlemen of the class of '99: If I could offer you only one tip for the future, sunscreen would be it.";
    let blob = seal_with_nonce(&SecretKey::new(key), &nonce, &aad, msg).unwrap();
    assert_eq!(&blob[..24], &nonce);
    assert_eq!(&blob[24..40], &[
        0xbd, 0x6d, 0x17, 0x9d, 0x3e, 0x83, 0xd4, 0x3b, 0x95, 0x76, 0x57, 0x94, 0x93, 0xc0, 0xe9, 0x39,
    ]);
    assert_eq!(&blob[blob.len() - 16..], &[
        0xc0, 0x87, 0x59, 0x24, 0xc1, 0xc7, 0x98, 0x79, 0x47, 0xde, 0xaf, 0xd8, 0x78, 0x0a, 0xcf, 0x49,
    ]);
    assert_eq!(unseal(&SecretKey::new(key), &aad, &blob).unwrap(), msg);
    assert_eq!(unseal(&SecretKey::new(key), &[], &blob), Err(CryptoError::Decryption));
}
