//! The reasons for which an operation of the library can fail.

use vstd::prelude::*;

verus! {

/// Why a cryptographic operation or the opening of a volume failed.
#[derive(Clone, Copy, Debug, PartialEq, Eq, Structural)]
pub enum CryptoError {
    /// The plaintext is longer than one nonce can protect.
    Encryption,
    /// The blob is too short to hold a nonce and a tag.
    TooShort,
    /// The blob does not authenticate under the key.
    Decryption,
    /// A key does not have the length that the cipher takes.
    KeyLength,
    /// A decrypted name is not UTF-8.
    NotUtf8,
    /// The salt does not have the length that volumes use.
    SaltLength,
    /// Argon2 does not accept the cost parameters.
    KdfParams,
    /// A key could not be derived.
    KeyDerivation,
    /// There is a volume already.
    VolumeExists,
    /// The header is larger than any volume header may be.
    HeaderTooLarge,
    /// The header bytes do not parse.
    HeaderFormat,
    /// The header has a version that is not supported.
    HeaderVersion(u32),
    /// The key encapsulation parameter set is not the one in use.
    KemParam(u16),
    /// The header does not match its MAC.
    HeaderMac,
    /// The encrypted seed is too short to be one.
    SeedTooShort,
    /// The encrypted seed does not authenticate under the password key.
    SeedDecryption,
    /// The decrypted seed does not have the length of a seed.
    SeedLength,
    /// The encapsulated key does not have the length of one.
    KemCiphertext,
    /// The public key does not have the length of one.
    PublicKeyLength,
    /// The public key is not a valid encapsulation key.
    PublicKey,
    /// The bytes are not a private identity.
    IdentityLength,
    /// The bytes are not a public identity.
    PublicIdentityFormat,
    /// No slot of the volume opens with the credential.
    NoSlot,
}

/// Why a directory index could not be read or written.
#[derive(Clone, Copy, Debug, PartialEq, Eq, Structural)]
pub enum IndexError {
    /// The index, or something in it, could not be sealed or opened.
    Crypto(CryptoError),
    /// The index does not parse.
    Format,
    /// There is no number left for another entry.
    InodeSpace,
}

/// Why a block of a stored file could not be read or written.
#[derive(Clone, Copy, Debug, PartialEq, Eq, Structural)]
pub enum BlockError {
    /// The stored file ends before the record of this block does.
    Missing(u64),
    /// The record could not be sealed or opened.
    Crypto(CryptoError),
}

/// How a filesystem request is refused.
#[derive(Clone, Copy, Debug, PartialEq, Eq, Structural)]
pub enum Errno {
    /// There is no such entry.
    Noent,
    /// The entry is not a directory.
    Notdir,
    /// The entry is not a file.
    Isdir,
    /// There is an entry with this name already.
    Exist,
    /// The directory is not empty.
    Notempty,
    /// A directory cannot be moved into itself.
    Inval,
    /// Something stored could not be read or written.
    Io,
}

} // verus!
