use pqfs::crypto::keys::KdfParams;
use pqfs::crypto::Crypto;
use pqfs::error::CryptoError;

fn crypto() -> Crypto {
    let kdf = KdfParams { m_cost: 8, t_cost: 1, p_cost: 1 };
    let (crypto, _) = Crypto::init_with_params("test-password", false, kdf).unwrap();
    crypto
}

#[test]
fn encrypt_decrypt_filename_roundtrip() {
    let crypto = crypto();
    let name = "my secret document.txt";
    let encrypted = crypto.encrypt_filename(name).unwrap();
    let decrypted = crypto.decrypt_filename(&encrypted).unwrap();
    assert_eq!(decrypted, name);
}

#[test]
fn hash_filename_is_deterministic() {
    let crypto = crypto();
    let name = "document.txt";
    assert_eq!(crypto.hash_filename(name), crypto.hash_filename(name));
}

#[test]
fn hash_filename_differs_for_different_names() {
    let crypto = crypto();
    assert_ne!(crypto.hash_filename("a"), crypto.hash_filename("b"));
}

#[test]
fn decrypt_filename_rejects_short_blob() {
    let crypto = crypto();
    assert!(crypto.decrypt_filename(&[0u8; 10]).is_err());
}

#[test]
fn names_of_other_scripts_round_trip() {
    let crypto = crypto();
    for name in ["", "ğüşıöç", "数据", "a\u{10ffff}b"] {
        let encrypted = crypto.encrypt_filename(name).unwrap();
        assert_eq!(encrypted.len(), name.len() + 40);
        assert_eq!(crypto.decrypt_filename(&encrypted).unwrap(), name);
    }
}

#[test]
fn name_hash_is_the_hmac_under_the_hash_key() {
    let crypto = Crypto::from_master_key(&[7u8; 32]).unwrap();
    assert_eq!(crypto.hash_filename("document.txt"), [
        0x19, 0x50, 0x76, 0x4b, 0xf5, 0x8c, 0xdc, 0x49, 0xfc, 0xcc, 0xf6, 0x6a, 0xcd, 0xb8, 0xcf, 0x29, 0x7e, 0x02,
        0xe5, 0xee, 0x9f, 0xaa, 0xa2, 0x34, 0xca, 0x7e, 0x20, 0x28, 0x3d, 0xe7, 0x8d, 0x10,
    ]);
}

#[test]
fn names_and_contents_have_different_keys() {
    let crypto = Crypto::from_master_key(&[7u8; 32]).unwrap();
    let name = crypto.encrypt_filename("name").unwrap();
    assert_eq!(crypto.decrypt(&name), Err(CryptoError::Decryption));
    let content = crypto.encrypt(b"name").unwrap();
    assert_eq!(crypto.decrypt_filename(&content), Err(CryptoError::Decryption));
}

#[test]
fn a_name_that_is_not_utf8_is_refused() {
    let crypto = Crypto::from_master_key(&[7u8; 32]).unwrap();
    let (name_key, _) = pqfs::crypto::keys::derive_filename_keys(&[7u8; 32]).unwrap();
    let blob = pqfs::crypto::aead::seal(&name_key, &[], &[0xff, 0xfe]).unwrap();
    assert_eq!(crypto.decrypt_filename(&blob), Err(CryptoError::NotUtf8));
}
