//! The outside functions that the library calls.
//!
//! Each function here makes one call into another crate. Its contract is what
//! the proofs of the rest of the library rest on; its body is not verified.

use argon2::Algorithm;
use argon2::Argon2;
use argon2::Params;
use chacha20poly1305::aead::Aead;
use chacha20poly1305::aead::KeyInit;
use chacha20poly1305::aead::Payload;
use chacha20poly1305::Key;
use chacha20poly1305::XChaCha20Poly1305;
use chacha20poly1305::XNonce;
use hkdf::Hkdf;
use hmac::Hmac;
use hmac::Mac;
use ml_kem::kem::Decapsulate;
use ml_kem::kem::Encapsulate;
use ml_kem::kem::Kem;
use ml_kem::kem::KeyExport;
use ml_kem::MlKem768;
use rand::Rng;
use sha2::Sha256;
use vstd::prelude::*;
use zeroize::Zeroize;

verus! {

/// The longest message that XChaCha20Poly1305 encrypts under one nonce: the
/// 32-bit block counter starts at 1 and must not wrap.
pub const MAX_MESSAGE: u64 = 274_877_906_816;

/// Bytes of an authentication tag.
pub const TAG_LEN: usize = 16;

/// Bytes of an ML-KEM-768 public key.
pub const KEM_PUBLIC_KEY_LEN: usize = 1184;

/// Bytes of an ML-KEM-768 ciphertext.
pub const KEM_CIPHERTEXT_LEN: usize = 1088;

/// The error of `chacha20poly1305`, which says nothing but that there is one.
#[verifier::external_type_specification]
#[verifier::external_body]
pub struct ExAeadError(chacha20poly1305::Error);

/// The errors of `argon2`.
#[verifier::external_type_specification]
#[verifier::external_body]
pub struct ExArgon2Error(argon2::Error);

/// The error of `hkdf` on an output that is too long.
#[verifier::external_type_specification]
#[verifier::external_body]
pub struct ExHkdfInvalidLength(hkdf::InvalidLength);

/// The error of `hmac` on a key that has a wrong length.
#[verifier::external_type_specification]
#[verifier::external_body]
pub struct ExHmacInvalidLength(hmac::digest::InvalidLength);

/// The error of `String::from_utf8`.
#[verifier::external_type_specification]
#[verifier::external_body]
pub struct ExFromUtf8Error(std::string::FromUtf8Error);

/// The error of making an array of a slice that has another length.
#[verifier::external_type_specification]
#[verifier::external_body]
pub struct ExTryFromSliceError(std::array::TryFromSliceError);

/// The ciphertext and tag that XChaCha20Poly1305 produces.
pub uninterp spec fn xchacha20poly1305_seal(key: Seq<u8>, nonce: Seq<u8>, aad: Seq<u8>, msg: Seq<u8>) -> Seq<u8>;

/// What XChaCha20Poly1305 recovers from a ciphertext and tag, if it accepts it.
pub uninterp spec fn xchacha20poly1305_open(key: Seq<u8>, nonce: Seq<u8>, aad: Seq<u8>, ct: Seq<u8>) -> Option<Seq<u8>>;

/// The 32 bytes that Argon2id, version 0x13, derives from a password.
pub uninterp spec fn argon2id(password: Seq<u8>, salt: Seq<u8>, m_cost: u32, t_cost: u32, p_cost: u32) -> Seq<u8>;

/// The 32 bytes that HKDF with SHA-256 and no salt expands to.
pub uninterp spec fn hkdf_sha256(ikm: Seq<u8>, info: Seq<u8>) -> Seq<u8>;

/// The 32-byte HMAC with SHA-256 of a message.
pub uninterp spec fn hmac_sha256(key: Seq<u8>, msg: Seq<u8>) -> Seq<u8>;

/// The ML-KEM-768 public key that belongs to a seed.
pub uninterp spec fn mlkem768_public_key(seed: Seq<u8>) -> Seq<u8>;

/// Whether ML-KEM-768 accepts bytes of the right length as a public key.
pub uninterp spec fn mlkem768_accepts(public_key: Seq<u8>) -> bool;

/// The ciphertext and the shared secret that ML-KEM-768 encapsulates for a
/// public key when it draws `m`.
pub uninterp spec fn mlkem768_encapsulated(public_key: Seq<u8>, m: Seq<u8>) -> (Seq<u8>, Seq<u8>);

/// The shared secret that ML-KEM-768 decapsulates with the key of a seed.
pub uninterp spec fn mlkem768_decapsulated(seed: Seq<u8>, ct: Seq<u8>) -> Seq<u8>;

/// Whether Argon2 accepts cost parameters.
pub open spec fn argon2_accepts(m_cost: u32, t_cost: u32, p_cost: u32) -> bool {
    &&& m_cost >= 8
    &&& 1 <= p_cost <= 0xFF_FFFF
    &&& m_cost >= 8 * p_cost
    &&& t_cost >= 1
}

/// Calls `fill_bytes` on the thread's generator from `rand`. The bytes are
/// random: nothing is said of them.
#[verifier::external_body]
pub(crate) fn random_array<const N: usize>() -> (bytes: [u8; N])
{
    let mut bytes = [0u8; N];
    rand::rng().fill_bytes(&mut bytes);
    bytes
}

/// Calls `zeroize` on an array, which writes a zero to every element.
#[verifier::external_body]
pub(crate) fn wipe<const N: usize>(bytes: &mut [u8; N])
    ensures
        final(bytes)@ == Seq::new(N as nat, |i: int| 0u8),
    opens_invariants none
    no_unwind
{
    bytes.zeroize();
}

/// Calls `<[u8; N]>::try_from` on a slice, which copies the slice if it has
/// exactly `N` elements and fails otherwise.
#[verifier::external_body]
pub(crate) fn array_from_slice<const N: usize>(bytes: &[u8]) -> (r: Result<[u8; N], std::array::TryFromSliceError>)
    ensures
        r is Ok <==> bytes@.len() == N,
        r matches Ok(array) ==> array@ == bytes@,
{
    <[u8; N]>::try_from(bytes)
}

/// Calls `String::from_utf8`, which succeeds exactly on valid UTF-8 and then
/// holds the characters that the bytes encode.
#[verifier::external_body]
pub(crate) fn string_from_utf8(bytes: Vec<u8>) -> (r: Result<String, std::string::FromUtf8Error>)
    ensures
        r is Ok <==> vstd::utf8::valid_utf8(bytes@),
        r matches Ok(s) ==> s@ == vstd::utf8::decode_utf8(bytes@),
{
    String::from_utf8(bytes)
}

/// Calls `SystemTime::elapsed` on the Unix epoch, for the nanoseconds since
/// then. The clock can be set anywhere, even before the epoch: nothing is said
/// of the result.
#[verifier::external_body]
pub(crate) fn clock_nanos() -> (r: Option<u128>)
{
    std::time::UNIX_EPOCH.elapsed().ok().map(|d| d.as_nanos())
}

/// Calls `encrypt` of `XChaCha20Poly1305` with a payload. Up to `MAX_MESSAGE`
/// bytes it succeeds, appends a 16-byte tag, and what it returns is decrypted
/// to the same message under the same key, nonce and associated data.
#[verifier::external_body]
pub(crate) fn aead_encrypt(key: &[u8; 32], nonce: &[u8; 24], aad: &[u8], msg: &[u8]) -> (r: Result<Vec<u8>, chacha20poly1305::Error>)
    requires
        msg@.len() <= MAX_MESSAGE,
    ensures
        r is Ok,
        r matches Ok(ct) ==> ct@ == xchacha20poly1305_seal(key@, nonce@, aad@, msg@),
        r matches Ok(ct) ==> ct@.len() == msg@.len() + TAG_LEN,
        r matches Ok(ct) ==> xchacha20poly1305_open(key@, nonce@, aad@, ct@) == Some(msg@),
{
    XChaCha20Poly1305::new(&Key::from(*key)).encrypt(&XNonce::from(*nonce), Payload { msg, aad })
}

/// Calls `decrypt` of `XChaCha20Poly1305` with a payload. It succeeds exactly
/// where the tag matches, and the message is 16 bytes shorter.
#[verifier::external_body]
pub(crate) fn aead_decrypt(key: &[u8; 32], nonce: &[u8; 24], aad: &[u8], ct: &[u8]) -> (r: Result<Vec<u8>, chacha20poly1305::Error>)
    requires
        ct@.len() <= MAX_MESSAGE + TAG_LEN,
    ensures
        r is Ok <==> xchacha20poly1305_open(key@, nonce@, aad@, ct@) is Some,
        r matches Ok(msg) ==> xchacha20poly1305_open(key@, nonce@, aad@, ct@) == Some(msg@),
        r matches Ok(msg) ==> msg@.len() + TAG_LEN == ct@.len(),
{
    XChaCha20Poly1305::new(&Key::from(*key)).decrypt(&XNonce::from(*nonce), Payload { msg: ct, aad })
}

/// Calls `Params::new` of `argon2` for a 32-byte output, and says whether it
/// accepts the cost parameters.
#[verifier::external_body]
pub(crate) fn argon2_params_accepted(m_cost: u32, t_cost: u32, p_cost: u32) -> (r: bool)
    ensures
        r == argon2_accepts(m_cost, t_cost, p_cost),
{
    Params::new(m_cost, t_cost, p_cost, Some(32)).is_ok()
}

/// Calls `hash_password_into` of `argon2` with Argon2id. It fails on a password
/// of more than 2^32 - 1 bytes and where the memory cannot be had, which the
/// machine decides: success is not promised.
#[verifier::external_body]
pub(crate) fn argon2id_hash(password: &[u8], salt: &[u8; 16], m_cost: u32, t_cost: u32, p_cost: u32) -> (r: Result<[u8; 32], argon2::Error>)
    requires
        argon2_accepts(m_cost, t_cost, p_cost),
    ensures
        r matches Ok(key) ==> key@ == argon2id(password@, salt@, m_cost, t_cost, p_cost),
{
    let params = Params::new(m_cost, t_cost, p_cost, Some(32))?;
    let mut out = [0u8; 32];
    Argon2::new(Algorithm::Argon2id, argon2::Version::V0x13, params).hash_password_into(password, salt, &mut out)?;
    Ok(out)
}

/// Calls `expand` of `Hkdf<Sha256>`, extracted without a salt, for 32 bytes,
/// which is within its limit, so that it succeeds.
#[verifier::external_body]
pub(crate) fn hkdf_expand(ikm: &[u8], info: &[u8]) -> (r: Result<[u8; 32], hkdf::InvalidLength>)
    ensures
        r is Ok,
        r matches Ok(okm) ==> okm@ == hkdf_sha256(ikm@, info@),
{
    let mut okm = [0u8; 32];
    Hkdf::<Sha256>::new(None, ikm).expand(info, &mut okm)?;
    Ok(okm)
}

/// Calls `finalize` of `Hmac<Sha256>` on one message. A key of any length is
/// accepted.
#[verifier::external_body]
pub(crate) fn hmac_tag(key: &[u8], msg: &[u8]) -> (r: Result<[u8; 32], hmac::digest::InvalidLength>)
    ensures
        r is Ok,
        r matches Ok(tag) ==> tag@ == hmac_sha256(key@, msg@),
{
    let mut mac = Hmac::<Sha256>::new_from_slice(key)?;
    mac.update(msg);
    Ok(mac.finalize().into_bytes().into())
}

/// Calls `verify_slice` of `Hmac<Sha256>` on one message. It succeeds exactly
/// where the tag is the message's own.
#[verifier::external_body]
pub(crate) fn hmac_verify(key: &[u8], msg: &[u8], tag: &[u8]) -> (r: Result<bool, hmac::digest::InvalidLength>)
    ensures
        r is Ok,
        r matches Ok(matches) ==> matches == (tag@ == hmac_sha256(key@, msg@)),
{
    let mut mac = Hmac::<Sha256>::new_from_slice(key)?;
    mac.update(msg);
    Ok(mac.verify_slice(tag).is_ok())
}

/// Calls `generate_keypair` of `MlKem768` and takes the seed of the private
/// key, which a generated key has. The seed is random: nothing is said of it.
#[verifier::external_body]
pub(crate) fn kem_generate_seed() -> (r: Option<[u8; 64]>)
    ensures
        r is Some,
{
    let (dk, _) = MlKem768::generate_keypair();
    dk.to_seed().map(|seed| seed.into())
}

/// Calls `encapsulation_key` on the ML-KEM-768 private key of a seed. The key
/// it gives is encoded as a public key is checked to be.
#[verifier::external_body]
pub(crate) fn kem_public_key(seed: &[u8; 64]) -> (r: Vec<u8>)
    ensures
        r@ == mlkem768_public_key(seed@),
        r@.len() == KEM_PUBLIC_KEY_LEN,
        mlkem768_accepts(r@),
{
    let dk = ml_kem::DecapsulationKey::<MlKem768>::from_seed((*seed).into());
    dk.encapsulation_key().to_bytes().to_vec()
}

/// Calls `encapsulate` of an ML-KEM-768 `EncapsulationKey`, which is made of
/// the bytes if they are a valid key. It draws 32 random bytes, of which the
/// ciphertext and the shared secret are a function.
#[verifier::external_body]
pub(crate) fn kem_encapsulate(public_key: &[u8]) -> (r: Option<(Vec<u8>, [u8; 32])>)
    ensures
        r is Some <==> (public_key@.len() == KEM_PUBLIC_KEY_LEN && mlkem768_accepts(public_key@)),
        r matches Some((ct, ss)) ==> ct@.len() == KEM_CIPHERTEXT_LEN,
        r matches Some((ct, ss)) ==> (exists|m: Seq<u8>|
            m.len() == 32 && #[trigger] mlkem768_encapsulated(public_key@, m) == (ct@, ss@)),
{
    let bytes = ml_kem::array::Array::try_from(public_key).ok()?;
    let ek = ml_kem::EncapsulationKey::<MlKem768>::new(&bytes).ok()?;
    let (ct, ss) = ek.encapsulate();
    Some((ct.to_vec(), ss.into()))
}

/// Calls `decapsulate` of the ML-KEM-768 private key of a seed. A ciphertext
/// of the right length always gives a shared secret; that it is the secret
/// which was encapsulated fails with a tiny probability, and is not said.
#[verifier::external_body]
pub(crate) fn kem_decapsulate(seed: &[u8; 64], ct: &[u8]) -> (r: Option<[u8; 32]>)
    ensures
        r is Some <==> ct@.len() == KEM_CIPHERTEXT_LEN,
        r matches Some(ss) ==> ss@ == mlkem768_decapsulated(seed@, ct@),
{
    let ct = ml_kem::kem::Ciphertext::<MlKem768>::try_from(ct).ok()?;
    let dk = ml_kem::DecapsulationKey::<MlKem768>::from_seed((*seed).into());
    Some(dk.decapsulate(&ct).into())
}

} // verus!
