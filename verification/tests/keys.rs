use pqfs::crypto::keys::build_cipher;
use pqfs::crypto::keys::derive_filename_keys;
use pqfs::crypto::keys::derive_header_mac_key;
use pqfs::crypto::keys::derive_master_key;
use pqfs::crypto::keys::derive_password_key;
use pqfs::crypto::keys::derive_recipient_kek;
use pqfs::crypto::keys::random_nonce;
use pqfs::crypto::keys::KdfParams;
use pqfs::crypto::KEY_LEN;
use pqfs::crypto::NONCE_LEN;
use pqfs::crypto::SALT_LEN;
use pqfs::error::CryptoError;

const TEST_KDF: KdfParams = KdfParams { m_cost: 8, t_cost: 1, p_cost: 1 };

#[test]
fn random_nonce_has_correct_length() {
    assert_eq!(random_nonce().len(), NONCE_LEN);
}

#[test]
fn derive_password_key_produces_32_bytes() {
    let salt = [0u8; SALT_LEN];
    let key = derive_password_key("password", &salt, TEST_KDF).unwrap();
    assert_eq!(key.as_slice().len(), KEY_LEN);
}

#[test]
fn derive_password_key_is_deterministic() {
    let salt = [1u8; SALT_LEN];
    let a = derive_password_key("same", &salt, TEST_KDF).unwrap();
    let b = derive_password_key("same", &salt, TEST_KDF).unwrap();
    assert_eq!(a, b);
}

#[test]
fn derive_master_key_is_32_bytes_and_sensitive_to_input() {
    let pw = derive_password_key("pw", &[0u8; SALT_LEN], TEST_KDF).unwrap();
    let ss = [0u8; 64];
    let key_a = derive_master_key(pw.as_slice(), &ss).unwrap();
    assert_eq!(key_a.as_slice().len(), KEY_LEN);

    let mut ss2 = ss;
    ss2[0] ^= 1;
    let key_b = derive_master_key(pw.as_slice(), &ss2).unwrap();
    assert_ne!(key_a, key_b);
}

#[test]
fn derive_filename_keys_are_independent() {
    let master = [7u8; KEY_LEN];
    let (a, b) = derive_filename_keys(&master).unwrap();
    assert_eq!(a.as_slice().len(), KEY_LEN);
    assert_eq!(b.as_slice().len(), KEY_LEN);
    assert_ne!(a, b);
}

#[test]
fn password_key_depends_on_password_salt_and_costs() {
    let salt = [1u8; SALT_LEN];
    let key = derive_password_key("same", &salt, TEST_KDF).unwrap();
    assert_ne!(key, derive_password_key("other", &salt, TEST_KDF).unwrap());
    assert_ne!(key, derive_password_key("same", &[2u8; SALT_LEN], TEST_KDF).unwrap());
    let slower = KdfParams { t_cost: 2, ..TEST_KDF };
    assert_ne!(key, derive_password_key("same", &salt, slower).unwrap());
    let wider = KdfParams { m_cost: 16, ..TEST_KDF };
    assert_ne!(key, derive_password_key("same", &salt, wider).unwrap());
}

#[test]
fn salts_of_another_length_are_refused() {
    assert_eq!(derive_password_key("pw", &[0u8; 15], TEST_KDF), Err(CryptoError::SaltLength));
    assert_eq!(derive_password_key("pw", &[0u8; 17], TEST_KDF), Err(CryptoError::SaltLength));
}

#[test]
fn cost_parameters_out_of_bounds_are_refused() {
    let salt = [0u8; SALT_LEN];
    for kdf in [
        KdfParams { m_cost: 7, t_cost: 1, p_cost: 1 },
        KdfParams { m_cost: 8, t_cost: 0, p_cost: 1 },
        KdfParams { m_cost: 8, t_cost: 1, p_cost: 0 },
        KdfParams { m_cost: 15, t_cost: 1, p_cost: 2 },
        KdfParams { m_cost: u32::MAX, t_cost: 1, p_cost: 0x100_0000 },
    ] {
        assert_eq!(derive_password_key("pw", &salt, kdf), Err(CryptoError::KdfParams));
    }
    assert!(derive_password_key("pw", &salt, KdfParams { m_cost: 16, t_cost: 1, p_cost: 2 }).is_ok());
}

#[test]
fn usual_cost_parameters() {
    assert_eq!(KdfParams::default(), KdfParams { m_cost: 131_072, t_cost: 3, p_cost: 1 });
}

#[test]
fn labels_give_the_expected_keys() {
    let master = [7u8; KEY_LEN];
    let (name_key, hash_key) = derive_filename_keys(&master).unwrap();
    assert_eq!(name_key.as_array(), &[
        0x90, 0x9d, 0xdd, 0x0f, 0x4d, 0x60, 0x98, 0x72, 0xc8, 0x80, 0x0b, 0xdf, 0xab, 0x55, 0x29, 0xc4, 0x9c, 0xdf,
        0x7d, 0xe6, 0xb9, 0xae, 0xd6, 0xc0, 0x5e, 0xd1, 0xc1, 0x2e, 0xe8, 0xdc, 0x53, 0x74,
    ]);
    assert_eq!(hash_key.as_array(), &[
        0xd7, 0x44, 0x34, 0x7f, 0xd5, 0x36, 0x09, 0xef, 0xdd, 0x0d, 0x23, 0x92, 0xe5, 0x47, 0x68, 0x0c, 0x0d, 0x2d,
        0x39, 0x2a, 0xd0, 0x22, 0x3c, 0x08, 0x85, 0xc0, 0x78, 0x62, 0x3e, 0xd6, 0xae, 0xcc,
    ]);
    assert_eq!(derive_header_mac_key(&master).unwrap().as_array(), &[
        0x84, 0xac, 0x63, 0xc3, 0xa9, 0xe6, 0xd4, 0xc6, 0xbe, 0x1a, 0x7a, 0x34, 0x2b, 0x0a, 0x59, 0x40, 0xc9, 0x27,
        0xc9, 0x2f, 0x45, 0x8b, 0x3f, 0xeb, 0x16, 0xbe, 0x0c, 0x2d, 0x55, 0xaf, 0x0b, 0x34,
    ]);
    assert_eq!(derive_recipient_kek(&master).unwrap().as_array(), &[
        0x41, 0x7a, 0x9c, 0xb7, 0x44, 0x27, 0xf9, 0xa4, 0x46, 0x47, 0x1f, 0x06, 0x95, 0xcc, 0xef, 0x0d, 0x56, 0xcf,
        0x5d, 0x99, 0x12, 0x78, 0x4c, 0xf1, 0xb3, 0x38, 0xde, 0xfa, 0xd8, 0x05, 0xc6, 0x7b,
    ]);
    assert_eq!(derive_master_key(&master, &[9u8; 32]).unwrap().as_array(), &[
        0x65, 0x25, 0x63, 0x11, 0x39, 0x6a, 0x24, 0xaa, 0x9f, 0x90, 0x4e, 0x1a, 0x82, 0x4a, 0x96, 0x78, 0xa1, 0x17,
        0x0c, 0x07, 0xdf, 0x75, 0x90, 0xfb, 0x30, 0x41, 0x4c, 0x6c, 0xbc, 0xca, 0xec, 0x7e,
    ]);
}

#[test]
fn cipher_keys_have_thirty_two_bytes() {
    assert_eq!(build_cipher(&[5u8; 32]).unwrap().as_array(), &[5u8; 32]);
    assert_eq!(build_cipher(&[5u8; 31]), Err(CryptoError::KeyLength));
    assert_eq!(build_cipher(&[]), Err(CryptoError::KeyLength));
}
