//! The content of a file that is stored as one sealed blob.
//!
//! A file without a content key of its own is sealed under the volume's key. It
//! gets a key of its own when it is written.

use crate::crypto::aead::blob_open;
use crate::crypto::aead::blob_open_with_key;
use crate::crypto::aead::blob_seals;
use crate::crypto::aead::nonce_drawn;
use crate::crypto::aead::SEAL_OVERHEAD;
use crate::crypto::Crypto;
use crate::crypto::KEY_LEN;
use crate::crypto::keys::secret_key_len;
use crate::crypto::keys::SecretKey;
use crate::error::Errno;
use crate::fs::blocks::blocks_of;
use crate::fs::blocks::image_holds;
use crate::fs::blocks::law_empty_file_is_held;
use crate::fs::blocks::law_write_into_a_sound_file_succeeds;
use crate::fs::blocks::law_write_overwrites_the_text;
use crate::fs::blocks::lay_over;
use crate::fs::blocks::lemma_stored_len_grows;
use crate::fs::blocks::nonces_drawn;
use crate::fs::blocks::overwritten;
use crate::fs::blocks::size_after;
use crate::fs::blocks::stored_len;
use crate::fs::blocks::write_range;
use crate::fs::entry::Entry;
use crate::fs::entry::EntryModel;
use crate::fs::ops::clamp_read_range;
use crate::fs::ops::clamped;
use crate::fs::ops::fresh_content_key;
use crate::fs::ops::key_wrapped;
use crate::fs::store::bytes_of;
use crate::fs::store::law_rekey_keeps_what_is_sealed;
use crate::fs::store::rekeyed;
use crate::primitives::MAX_MESSAGE;
use crate::text::same_bytes;
use vstd::prelude::*;

verus! {

/// The content key in a wrapped key, if it is one.
pub open spec fn content_key_in(crypto: &Crypto, wrapped: Seq<u8>) -> Option<Seq<u8>> {
    match blob_open(crypto.content_key(), Seq::empty(), wrapped) {
        Ok(key) => if key.len() == KEY_LEN {
            Some(key)
        } else {
            None
        },
        Err(_) => None,
    }
}

/// Unwraps a content key.
pub fn decrypt_content_key(crypto: &Crypto, wrapped: &[u8]) -> (r: Result<SecretKey, Errno>)
    ensures
        match r {
            Ok(key) => content_key_in(crypto, wrapped@) == Some(key@),
            Err(e) => content_key_in(crypto, wrapped@) is None && e == Errno::Io,
        },
{
    match crypto.decrypt(wrapped) {
        Ok(bytes) => match SecretKey::from_slice(bytes.as_slice()) {
            Some(key) => Ok(key),
            None => Err(Errno::Io),
        },
        Err(_) => Err(Errno::Io),
    }
}

/// What a stored blob holds, if it can be read with a wrapped key, or without
/// one.
pub open spec fn content_in(crypto: &Crypto, wrapped: Seq<u8>, blob: Seq<u8>) -> Option<Seq<u8>> {
    if wrapped.len() == 0 {
        blob_open(crypto.content_key(), Seq::empty(), blob).ok()
    } else {
        match content_key_in(crypto, wrapped) {
            Some(key) => blob_open_with_key(key, Seq::empty(), blob).ok(),
            None => None,
        }
    }
}

/// Decrypts a stored blob.
pub fn decrypt_file_content(crypto: &Crypto, entry: &Entry, blob: &[u8]) -> (r: Result<Vec<u8>, Errno>)
    ensures
        match r {
            Ok(content) => {
                &&& content_in(crypto, entry.content_key@, blob@) == Some(content@)
                &&& content@.len() + SEAL_OVERHEAD == blob@.len()
            },
            Err(e) => content_in(crypto, entry.content_key@, blob@) is None && e == Errno::Io,
        },
{
    if entry.content_key.len() == 0 {
        match crypto.decrypt(blob) {
            Ok(content) => Ok(content),
            Err(_) => Err(Errno::Io),
        }
    } else {
        let key: SecretKey = match decrypt_content_key(crypto, entry.content_key.as_slice()) {
            Ok(key) => key,
            Err(e) => {
                return Err(e);
            },
        };
        match crypto.decrypt_with_key(key.as_slice(), blob) {
            Ok(content) => Ok(content),
            Err(_) => Err(Errno::Io),
        }
    }
}

/// What a file holds, if it can be read. A file that was never stored is empty.
pub open spec fn stored_content(crypto: &Crypto, wrapped: Seq<u8>, stored: Option<Seq<u8>>) -> Option<Seq<u8>> {
    match stored {
        Some(blob) => content_in(crypto, wrapped, blob),
        None => Some(Seq::empty()),
    }
}

/// Reads what a file holds before it is written.
pub fn read_existing_plaintext(crypto: &Crypto, entry: &Entry, stored: Option<&[u8]>) -> (r: Result<Vec<u8>, Errno>)
    ensures
        match r {
            Ok(content) => stored_content(crypto, entry.content_key@, bytes_of(stored)) == Some(content@),
            Err(e) => stored_content(crypto, entry.content_key@, bytes_of(stored)) is None && e == Errno::Io,
        },
{
    match stored {
        Some(blob) => decrypt_file_content(crypto, entry, blob),
        None => {
            let empty: Vec<u8> = Vec::new();
            assert(empty@ =~= Seq::empty());
            Ok(empty)
        },
    }
}

/// Reads a range of a file. A read past the end is cut off there.
pub fn do_read(crypto: &Crypto, entry: &Entry, stored: Option<&[u8]>, offset: i64, size: u32) -> (r: Result<
    Vec<u8>,
    Errno,
>)
    ensures
        match (r, stored_content(crypto, entry.content_key@, bytes_of(stored))) {
            (Ok(data), Some(content)) => {
                let (start, end) = clamped(content.len() as int, offset as int, size as int);
                data@ == content.subrange(start, end)
            },
            (Err(e), None) => e == Errno::Io,
            _ => false,
        },
{
    let content: Vec<u8> = match read_existing_plaintext(crypto, entry, stored) {
        Ok(content) => content,
        Err(e) => {
            return Err(e);
        },
    };
    let (start, end): (usize, usize) = clamp_read_range(content.len(), offset, size);
    Ok(vstd::slice::slice_to_vec(vstd::slice::slice_subrange(content.as_slice(), start, end)))
}

/// Lays data over a content, which grows where it is too short; a gap is filled
/// with zeros.
pub fn splice(content: &mut Vec<u8>, offset: usize, data: &[u8])
    requires
        offset + data@.len() <= usize::MAX,
    ensures
        final(content)@ == overwritten(old(content)@, offset as int, data@),
{
    let ghost before = content@;
    let end: usize = offset + data.len();
    if end > content.len() {
        content.resize(end, 0);
    }
    lay_over(content, offset, data, 0, data.len());
    assert(content@ =~= overwritten(before, offset as int, data@));
}

/// A file that was written: its wrapped key, its size and the blob to be stored.
pub struct WrittenFile {
    /// The wrapped key of the content.
    pub content_key: Vec<u8>,
    /// The size of the content.
    pub size: u64,
    /// The sealed content.
    pub blob: Vec<u8>,
}

impl WrittenFile {
    /// Whether the file holds a content, sealed under the key that is wrapped
    /// beside it.
    pub open spec fn holds(&self, crypto: &Crypto, content: Seq<u8>) -> bool {
        &&& self.size == content.len()
        &&& content_key_in(crypto, self.content_key@) matches Some(key) && blob_seals(
            key,
            Seq::empty(),
            content,
            self.blob@,
        )
    }
}

/// Writes data into a file. A file without a key gets a fresh one, and keeps the
/// key that it has otherwise.
pub fn do_write_data(crypto: &Crypto, entry: &Entry, stored: Option<&[u8]>, offset: i64, data: &[u8]) -> (r: Result<
    WrittenFile,
    Errno,
>)
    requires
        0 <= offset,
        offset + data@.len() <= usize::MAX,
    ensures
        ({
            let wrapped = entry.content_key@;
            let before = stored_content(crypto, wrapped, bytes_of(stored));
            match r {
                Ok(file) => {
                    &&& before matches Some(content) && file.holds(
                        crypto,
                        overwritten(content, offset as int, data@),
                    )
                    &&& nonce_drawn(file.blob@)
                    &&& if wrapped.len() == 0 {
                        key_wrapped(crypto, file.content_key@)
                    } else {
                        file.content_key@ == wrapped
                    }
                },
                Err(e) => {
                    &&& e == Errno::Io
                    &&& {
                        ||| before is None
                        ||| wrapped.len() > 0 && content_key_in(crypto, wrapped) is None
                        ||| overwritten(before->0, offset as int, data@).len() > MAX_MESSAGE
                    }
                },
            }
        }),
{
    broadcast use secret_key_len;

    let mut content: Vec<u8> = match read_existing_plaintext(crypto, entry, stored) {
        Ok(content) => content,
        Err(e) => {
            return Err(e);
        },
    };
    let ghost before = content@;
    let content_key: Vec<u8> = if entry.content_key.len() == 0 {
        match fresh_content_key(crypto) {
            Ok((_, wrapped)) => wrapped,
            Err(e) => {
                return Err(e);
            },
        }
    } else {
        entry.content_key.clone()
    };
    let key: SecretKey = match decrypt_content_key(crypto, content_key.as_slice()) {
        Ok(key) => key,
        Err(e) => {
            return Err(e);
        },
    };
    splice(&mut content, offset as usize, data);
    match crypto.encrypt_with_key(key.as_slice(), content.as_slice()) {
        Ok(blob) => Ok(WrittenFile { content_key, size: content.len() as u64, blob }),
        Err(_) => Err(Errno::Io),
    }
}

/// A file that was written is read back with what was written into it.
pub proof fn law_written_file_is_read_back(crypto: &Crypto, file: WrittenFile, content: Seq<u8>)
    requires
        file.holds(crypto, content),
    ensures
        stored_content(crypto, file.content_key@, Some(file.blob@)) == Some(content),
{
}

/// A file that was written is read back with the data where it was written, the
/// old bytes around it, and zeros in a gap, and has the size that follows.
pub proof fn law_written_data_is_read_back(
    crypto: &Crypto,
    file: WrittenFile,
    content: Seq<u8>,
    offset: int,
    data: Seq<u8>,
)
    requires
        0 <= offset,
        file.holds(crypto, overwritten(content, offset, data)),
    ensures
        file.size == size_after(content.len() as int, offset, data.len() as int),
        stored_content(crypto, file.content_key@, Some(file.blob@)) == Some(overwritten(content, offset, data)),
{
    law_written_file_is_read_back(crypto, file, overwritten(content, offset, data));
}

/// Two writes into one file, one after the other, are both there: the first one
/// is kept wherever the second one does not reach.
pub proof fn law_second_write_keeps_the_first(
    content: Seq<u8>,
    first: int,
    a: Seq<u8>,
    second: int,
    b: Seq<u8>,
    pos: int,
)
    requires
        0 <= first <= pos < first + a.len(),
        0 <= second,
        !(second <= pos < second + b.len()),
    ensures
        pos < overwritten(overwritten(content, first, a), second, b).len(),
        overwritten(overwritten(content, first, a), second, b)[pos] == a[pos - first],
{
}

/// How the content of a file is stored.
#[derive(Clone, Copy, Debug, PartialEq, Eq, Structural)]
pub enum StoredForm {
    /// As one blob, sealed under the key of the volume.
    Blob,
    /// In blocks, sealed under a key of its own.
    Blocks,
}

/// How the content of a file is stored, given its wrapped key: in blocks exactly
/// where it has one.
pub fn stored_form(content_key: &[u8]) -> (form: StoredForm)
    ensures
        form == StoredForm::Blocks <==> content_key@.len() > 0,
        form == StoredForm::Blob <==> content_key@.len() == 0,
{
    if content_key.len() == 0 {
        StoredForm::Blob
    } else {
        StoredForm::Blocks
    }
}

/// Whether the index has to be saved as soon as a content is written: exactly where
/// the content got another key, without which it is lost.
pub fn saves_at_once(old_key: &[u8], new_key: &[u8]) -> (r: bool)
    ensures
        r == (old_key@ != new_key@),
{
    !same_bytes(old_key, new_key)
}

/// A file that was stored as one blob, in the form of blocks under a fresh key.
pub struct BlockFile {
    /// The wrapped key of the content.
    pub content_key: Vec<u8>,
    /// The size of the content.
    pub size: u64,
    /// The stored form.
    pub image: Vec<u8>,
}

/// Brings a file that is stored as one blob into the form of blocks, under a
/// fresh key.
pub fn convert_to_blocks(crypto: &Crypto, entry: &Entry, stored: Option<&[u8]>) -> (r: Result<BlockFile, Errno>)
    requires
        stored matches Some(blob) ==> stored_len(blob@.len() as int) <= usize::MAX,
    ensures
        match (r, stored_content(crypto, entry.content_key@, bytes_of(stored))) {
            (Ok(file), Some(content)) => {
                &&& file.size == content.len()
                &&& content_key_in(crypto, file.content_key@) matches Some(key) && image_holds(
                    key,
                    file.image@,
                    content,
                )
                &&& key_wrapped(crypto, file.content_key@)
                &&& nonces_drawn(file.image@, 0, blocks_of(file.size as int))
            },
            (Err(e), None) => e == Errno::Io,
            _ => false,
        },
{
    broadcast use secret_key_len;

    let content: Vec<u8> = match stored {
        Some(blob) => match decrypt_file_content(crypto, entry, blob) {
            Ok(content) => {
                proof {
                    lemma_stored_len_grows(content@.len() as int, blob@.len() as int);
                }
                content
            },
            Err(e) => {
                return Err(e);
            },
        },
        None => Vec::new(),
    };
    assert(stored is None ==> content@ =~= Seq::empty());
    let (key, content_key): (SecretKey, Vec<u8>) = match fresh_content_key(crypto) {
        Ok(fresh) => fresh,
        Err(e) => {
            return Err(e);
        },
    };
    let mut image: Vec<u8> = Vec::new();
    let ghost empty = image@;
    proof {
        law_empty_file_is_held(key@, empty);
        law_write_into_a_sound_file_succeeds(key@, empty, Seq::empty(), 0, content@.len() as int);
    }
    match write_range(crypto, key.as_slice(), &mut image, 0, 0, content.as_slice()) {
        Ok(size) => {
            proof {
                law_write_overwrites_the_text(key@, empty, image@, Seq::empty(), 0, content@);
                assert(overwritten(Seq::empty(), 0, content@) =~= content@);
            }
            Ok(BlockFile { content_key, size, image })
        },
        Err(_) => {
            assert(false);
            Err(Errno::Io)
        },
    }
}

/// Rekeying keeps the stored content of every file that has a key of its own
/// readable as it is: under the new keys it opens to what it opened to under the
/// old ones.
pub proof fn law_rekeying_keeps_contents_readable(
    old: &Crypto,
    new: &Crypto,
    before: EntryModel,
    after: EntryModel,
    blob: Seq<u8>,
)
    requires
        rekeyed(old, new, before, after),
        before.content_key.len() > 0,
    ensures
        content_key_in(new, after.content_key) == content_key_in(old, before.content_key),
        content_in(new, after.content_key, blob) == content_in(old, before.content_key, blob),
{
    law_rekey_keeps_what_is_sealed(old, new, before, after);
}

} // verus!
