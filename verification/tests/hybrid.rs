use hmac::Hmac;
use hmac::KeyInit;
use hmac::Mac;
use pqfs::crypto::header::HEADER_VERSION;
use pqfs::crypto::keys::derive_header_mac_key;
use pqfs::crypto::keys::derive_password_key;
use pqfs::crypto::keys::KdfParams;
use pqfs::crypto::keys::SecretKey;
use pqfs::crypto::volume::make_hybrid;
use pqfs::crypto::volume::open_hybrid;
use pqfs::crypto::volume::recover_master_key;
use pqfs::crypto::volume::HybridHeader;
use pqfs::crypto::Crypto;
use pqfs::crypto::MAX_HEADER_BYTES;
use pqfs::error::CryptoError;
use sha2::Sha256;

fn test_kdf() -> KdfParams {
    KdfParams { m_cost: 8, t_cost: 1, p_cost: 1 }
}

fn init_for_tests(password: &str) -> (Crypto, HybridHeader) {
    Crypto::init_with_params(password, false, test_kdf()).unwrap()
}

#[test]
fn init_creates_volume_header() {
    let (_, header) = init_for_tests("pw");
    assert!(!header.to_bytes().is_empty());
}

#[test]
fn init_refuses_existing_volume() {
    let _ = init_for_tests("pw");
    assert!(Crypto::init_with_params("pw", true, test_kdf()).is_err());
    assert!(matches!(
        Crypto::init_with_params("pw", true, test_kdf()),
        Err(CryptoError::VolumeExists)
    ));
}

#[test]
fn load_roundtrip_succeeds() {
    let (crypto, header) = init_for_tests("my-password");
    let ciphertext = crypto.encrypt(b"payload").unwrap();

    let (loaded, _) = Crypto::load("my-password", &header.to_bytes()).unwrap();
    let decrypted = loaded.decrypt(&ciphertext).unwrap();
    assert_eq!(decrypted, b"payload");
}

#[test]
fn load_with_wrong_password_fails() {
    let (_, header) = init_for_tests("right-password");
    assert!(Crypto::load("wrong-password", &header.to_bytes()).is_err());
    assert!(matches!(
        Crypto::load("wrong-password", &header.to_bytes()),
        Err(CryptoError::SeedDecryption)
    ));
}

#[test]
fn header_records_kdf_params_and_version() {
    let kdf = KdfParams { m_cost: 16, t_cost: 2, p_cost: 1 };
    let (_, header) = Crypto::init_with_params("pw", false, kdf).unwrap();
    assert_eq!(header.version, HEADER_VERSION);
    assert_eq!(header.kdf, kdf);

    let (_, loaded) = Crypto::load("pw", &header.to_bytes()).unwrap();
    assert_eq!(loaded.kdf, kdf);
}

#[test]
fn load_rejects_a_tampered_kem_ciphertext() {
    let (_, mut header) = init_for_tests("pw");
    header.kem_ciphertext[0] ^= 1;
    assert!(Crypto::load("pw", &header.to_bytes()).is_err());
}

#[test]
fn load_rejects_a_tampered_kdf_params() {
    let (_, mut header) = init_for_tests("pw");
    header.kdf.t_cost += 1;
    assert!(Crypto::load("pw", &header.to_bytes()).is_err());
}

#[test]
fn load_rejects_an_oversized_header() {
    let data = vec![0u8; (MAX_HEADER_BYTES + 1) as usize];
    assert!(Crypto::load("pw", &data).is_err());
    assert!(matches!(Crypto::load("pw", &data), Err(CryptoError::HeaderTooLarge)));
}

#[test]
fn load_rejects_what_is_not_a_header() {
    assert!(matches!(Crypto::load("pw", &[1, 2, 3]), Err(CryptoError::HeaderFormat)));
    assert!(matches!(Crypto::load("pw", &[]), Err(CryptoError::HeaderFormat)));
}

#[test]
fn load_rejects_other_versions_and_parameter_sets() {
    let (_, mut header) = init_for_tests("pw");
    header.version = 2;
    assert!(matches!(Crypto::load("pw", &header.to_bytes()), Err(CryptoError::HeaderVersion(2))));
    header.version = HEADER_VERSION;
    header.kem_param = 512;
    assert!(matches!(Crypto::load("pw", &header.to_bytes()), Err(CryptoError::KemParam(512))));
}

#[test]
fn load_rejects_unusable_cost_parameters() {
    let (_, mut header) = init_for_tests("pw");
    header.kdf.m_cost = 0;
    assert!(matches!(Crypto::load("pw", &header.to_bytes()), Err(CryptoError::KdfParams)));
    assert!(matches!(
        Crypto::init_with_params("pw", false, header.kdf),
        Err(CryptoError::KdfParams)
    ));
}

#[test]
fn header_bytes_are_laid_out_field_by_field() {
    let (_, header) = init_for_tests("pw");
    let bytes = header.to_bytes();
    assert_eq!(&bytes[0..4], &[3, 0, 0, 0]);
    assert_eq!(&bytes[4..20], &header.salt);
    assert_eq!(&bytes[20..24], &[8, 0, 0, 0]);
    assert_eq!(&bytes[24..28], &[1, 0, 0, 0]);
    assert_eq!(&bytes[28..32], &[1, 0, 0, 0]);
    assert_eq!(&bytes[32..34], &[0, 3]);
    assert_eq!(&bytes[34..42], &[0x40, 4, 0, 0, 0, 0, 0, 0]);
    assert_eq!(header.kem_ciphertext.len(), 1088);
    assert_eq!(header.kem_public_key.len(), 1184);
    assert_eq!(header.encrypted_seed.len(), 104);
    assert_eq!(&bytes[bytes.len() - 32..], &header.mac);
    assert_eq!(bytes.len(), 34 + 8 + 1088 + 8 + 1184 + 8 + 104 + 32);
}

#[test]
fn bytes_behind_a_header_are_passed_over() {
    let (_, header) = init_for_tests("pw");
    let mut bytes = header.to_bytes();
    bytes.extend_from_slice(&[1, 2, 3]);
    assert!(Crypto::load("pw", &bytes).is_ok());
}

#[test]
fn master_key_recovery_names_what_is_wrong() {
    let (_, header) = init_for_tests("pw");
    let key = derive_password_key("pw", &header.salt, header.kdf).unwrap();
    let other = SecretKey::new([1u8; 32]);
    assert_eq!(
        recover_master_key(&key, &[0u8; 39], &header.kem_ciphertext),
        Err(CryptoError::SeedTooShort)
    );
    assert_eq!(
        recover_master_key(&other, &header.encrypted_seed, &header.kem_ciphertext),
        Err(CryptoError::SeedDecryption)
    );
    let short_seed = pqfs::crypto::aead::seal(&key, &[], &[0u8; 63]).unwrap();
    assert_eq!(
        recover_master_key(&key, &short_seed, &header.kem_ciphertext),
        Err(CryptoError::SeedLength)
    );
    assert_eq!(
        recover_master_key(&key, &header.encrypted_seed, &[0u8; 1087]),
        Err(CryptoError::KemCiphertext)
    );
    let recovered = recover_master_key(&key, &header.encrypted_seed, &header.kem_ciphertext).unwrap();
    assert_eq!(open_hybrid(&key, &header).unwrap(), recovered);
    assert_eq!(open_hybrid(&other, &header), Err(CryptoError::SeedDecryption));
}

#[test]
fn the_header_mac_is_derived_from_the_master_key() {
    let (_, mut header) = init_for_tests("pw");
    let key = derive_password_key("pw", &header.salt, header.kdf).unwrap();
    let master_key = open_hybrid(&key, &header).unwrap();
    let mac_key = derive_header_mac_key(master_key.as_slice()).unwrap();
    let mut mac = Hmac::<Sha256>::new_from_slice(mac_key.as_slice()).unwrap();
    mac.update(&header.authenticated_bytes());
    assert_eq!(header.mac.to_vec(), mac.finalize().into_bytes().to_vec());

    header.kem_public_key[0] ^= 1;
    assert_eq!(open_hybrid(&key, &header), Err(CryptoError::HeaderMac));
    header.kem_public_key[0] ^= 1;
    header.kem_ciphertext[0] ^= 1;
    assert_eq!(open_hybrid(&key, &header), Err(CryptoError::HeaderMac));
}

#[test]
fn a_made_header_seals_the_given_seed() {
    let key = SecretKey::new([4u8; 32]);
    let seed = [9u8; 64];
    let (_, header) = make_hybrid(&key, [2u8; 16], test_kdf(), &seed, vec![0u8; 1088], &key).unwrap();
    assert_eq!(header.salt, [2u8; 16]);
    assert_eq!(pqfs::crypto::aead::unseal(&key, &[], &header.encrypted_seed).unwrap(), seed);
}

#[test]
fn bare_volumes_round_trip() {
    let (crypto, header) = Crypto::init_bare("my-password", false).unwrap();
    let ciphertext = crypto.encrypt(b"payload").unwrap();
    let bytes = header.to_bytes();
    assert_eq!(&bytes[..16], &header.salt);
    assert_eq!(bytes.len(), 16 + 8 + 1088 + 8 + 1184 + 8 + 104);

    let (loaded, read) = Crypto::load_bare("my-password", &bytes).unwrap();
    assert_eq!(read.encrypted_seed, header.encrypted_seed);
    assert_eq!(loaded.decrypt(&ciphertext).unwrap(), b"payload");

    assert!(matches!(Crypto::load_bare("other", &bytes), Err(CryptoError::SeedDecryption)));
    assert!(matches!(Crypto::load_bare("my-password", &bytes[..40]), Err(CryptoError::HeaderFormat)));
    assert!(matches!(Crypto::init_bare("my-password", true), Err(CryptoError::VolumeExists)));
}
