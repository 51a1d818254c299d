//! The stored form of a file: a row of independently sealed blocks.
//!
//! Block `i` holds the bytes from `i * BLOCK_PLAINTEXT` on, and its record
//! starts at `i * FULL_RECORD` in the stored file. Every record but the last
//! has full length. Each record is sealed together with the index of its block.
//!
//! `read_range`, `write_range` and `truncate` work on a stored file that is
//! held in memory. They are made of steps that concern one record each, so that
//! a caller with a real file can move just the records that a step asks for.

use crate::crypto::aead::blob_open_with_key;
use crate::crypto::aead::blob_seals;
use crate::crypto::aead::block_aad;
use crate::crypto::aead::law_unseal_undoes_seal;
use crate::crypto::aead::nonce_drawn;
use crate::crypto::aead::SEAL_OVERHEAD;
use crate::crypto::Crypto;
use crate::crypto::KEY_LEN;
use crate::crypto::keys::drawn;
use crate::crypto::NONCE_LEN;
use crate::error::BlockError;
use crate::error::CryptoError;
use vstd::prelude::*;

verus! {

/// Plaintext bytes of a full block.
pub const BLOCK_PLAINTEXT: usize = 65536;

/// Stored bytes of a full block.
pub const FULL_RECORD: u64 = 65576;

/// How many blocks a file has.
pub open spec fn blocks_of(size: int) -> int {
    (size + BLOCK_PLAINTEXT - 1) / BLOCK_PLAINTEXT as int
}

/// How many bytes of a file a block holds.
pub open spec fn block_len(size: int, index: int) -> int {
    let start = index * BLOCK_PLAINTEXT;
    if start >= size {
        0
    } else if size - start < BLOCK_PLAINTEXT {
        size - start
    } else {
        BLOCK_PLAINTEXT as int
    }
}

/// Where the record of a block starts.
pub open spec fn record_start(index: int) -> int {
    index * FULL_RECORD
}

/// How long the record of a block is.
pub open spec fn record_size(size: int, index: int) -> int {
    block_len(size, index) + SEAL_OVERHEAD
}

/// How long the stored form of a file is.
pub open spec fn stored_len(size: int) -> int {
    if size <= 0 {
        0
    } else {
        record_start(blocks_of(size) - 1) + record_size(size, blocks_of(size) - 1)
    }
}

/// What reading a block of a stored file gives.
pub open spec fn block_at(key: Seq<u8>, image: Seq<u8>, size: int, index: int) -> Result<Seq<u8>, BlockError> {
    let start = record_start(index);
    let end = start + record_size(size, index);
    if end > image.len() {
        Err(BlockError::Missing(index as u64))
    } else {
        match blob_open_with_key(key, block_aad(index as u64), image.subrange(start, end)) {
            Ok(plaintext) => Ok(plaintext),
            Err(e) => Err(BlockError::Crypto(e)),
        }
    }
}

/// The byte of the file at a position.
pub open spec fn byte_at(key: Seq<u8>, image: Seq<u8>, size: int, pos: int) -> u8 {
    block_at(key, image, size, pos / BLOCK_PLAINTEXT as int)->Ok_0[pos % BLOCK_PLAINTEXT as int]
}

/// The bytes of the file in a range.
pub open spec fn bytes_in(key: Seq<u8>, image: Seq<u8>, size: int, from: int, to: int) -> Seq<u8> {
    Seq::new((to - from) as nat, |k: int| byte_at(key, image, size, from + k))
}

/// Whether the blocks from `from` up to, not including, `to` can be read.
pub open spec fn blocks_readable(key: Seq<u8>, image: Seq<u8>, size: int, from: int, to: int) -> bool {
    forall|i: int| from <= i < to ==> (#[trigger] block_at(key, image, size, i)) is Ok
}

/// The part of a text that a block holds.
pub open spec fn text_block(text: Seq<u8>, index: int) -> Seq<u8> {
    let start = index * BLOCK_PLAINTEXT;
    text.subrange(start, start + block_len(text.len() as int, index))
}

/// Whether a stored file holds a text.
pub open spec fn image_holds(key: Seq<u8>, image: Seq<u8>, text: Seq<u8>) -> bool {
    forall|i: int|
        0 <= i < blocks_of(text.len() as int) ==> #[trigger] block_at(key, image, text.len() as int, i) == Ok::<
            Seq<u8>,
            BlockError,
        >(text_block(text, i))
}

/// Where a read of `len` bytes at `offset` ends.
pub open spec fn read_end(size: int, offset: int, len: int) -> int {
    if offset + len < size {
        offset + len
    } else {
        size
    }
}

/// Whether a read has any byte to return.
pub open spec fn read_is_empty(size: int, offset: int, len: int) -> bool {
    offset >= size || len == 0
}

/// How many blocks a file has.
pub fn block_count(size: u64) -> (count: u64)
    ensures
        count == blocks_of(size as int),
{
    if size == 0 {
        return 0;
    }
    let last: u64 = (size - 1) / BLOCK_PLAINTEXT as u64;
    assert((size + 65535) / 65536 == (size - 1) / 65536 + 1);
    last + 1
}

/// How many bytes of a file a block holds.
pub fn plaintext_len(size: u64, index: u64) -> (len: usize)
    requires
        index * BLOCK_PLAINTEXT <= u64::MAX,
    ensures
        len == block_len(size as int, index as int),
{
    let start: u64 = index * BLOCK_PLAINTEXT as u64;
    if start >= size {
        return 0;
    }
    let rest: u64 = size - start;
    if rest < BLOCK_PLAINTEXT as u64 {
        rest as usize
    } else {
        BLOCK_PLAINTEXT
    }
}

/// How long the record of a block is.
pub fn record_len(size: u64, index: u64) -> (len: usize)
    requires
        index * BLOCK_PLAINTEXT <= u64::MAX,
    ensures
        len == record_size(size as int, index as int),
{
    SEAL_OVERHEAD + plaintext_len(size, index)
}

/// Where the record of a block starts.
pub fn record_offset(index: u64) -> (start: u64)
    requires
        record_start(index as int) <= u64::MAX,
    ensures
        start == record_start(index as int),
{
    index * FULL_RECORD
}

/// How many bytes a file takes where it is stored, if that can be counted.
pub fn stored_length(size: u64) -> (r: Option<u64>)
    ensures
        match r {
            Some(len) => len == stored_len(size as int),
            None => stored_len(size as int) > u64::MAX,
        },
{
    let count: u64 = block_count(size);
    let len: u128 = size as u128 + count as u128 * SEAL_OVERHEAD as u128;
    assert(len == stored_len(size as int));
    if len <= u64::MAX as u128 {
        Some(len as u64)
    } else {
        None
    }
}

/// The record of a block lies within the stored length of its file.
proof fn lemma_record_within(size: int, index: int)
    requires
        0 <= index < blocks_of(size),
    ensures
        0 <= record_start(index),
        record_start(index) + record_size(size, index) <= stored_len(size),
        index * BLOCK_PLAINTEXT <= record_start(index),
        index * BLOCK_PLAINTEXT < size,
        index + 1 < blocks_of(size) ==> block_len(size, index) == BLOCK_PLAINTEXT,
        index + 1 < blocks_of(size) ==> record_start(index + 1) <= stored_len(size),
        1 <= block_len(size, index) <= BLOCK_PLAINTEXT,
{
}

/// Which blocks a read concerns.
#[derive(Clone, Copy, Debug, PartialEq, Eq, Structural)]
pub struct ReadPlan {
    /// The first block that is read.
    pub first: u64,
    /// The last block that is read.
    pub last: u64,
    /// Where the read ends.
    pub end: u64,
}

/// Plans a read: which blocks it concerns, and where it ends. A read past the
/// end of the file concerns none.
pub fn read_plan(size: u64, offset: u64, len: usize) -> (r: Option<ReadPlan>)
    ensures
        match r {
            Some(plan) => {
                &&& !read_is_empty(size as int, offset as int, len as int)
                &&& plan.end == read_end(size as int, offset as int, len as int)
                &&& plan.first == offset as int / BLOCK_PLAINTEXT as int
                &&& plan.last == (plan.end - 1) / BLOCK_PLAINTEXT as int
                &&& plan.first <= plan.last < blocks_of(size as int)
            },
            None => read_is_empty(size as int, offset as int, len as int),
        },
{
    if offset >= size || len == 0 {
        return None;
    }
    let end: u64 = if (len as u64) < size - offset {
        offset + len as u64
    } else {
        size
    };
    Some(ReadPlan { first: offset / BLOCK_PLAINTEXT as u64, last: (end - 1) / BLOCK_PLAINTEXT as u64, end })
}

/// The part of a record's plaintext that a read of `offset..end` returns.
pub open spec fn read_part(block: Seq<u8>, index: int, offset: int, end: int) -> Seq<u8> {
    let start = index * BLOCK_PLAINTEXT;
    let from = if offset > start {
        offset - start
    } else {
        0
    };
    let to = if end - start < block.len() {
        end - start
    } else {
        block.len() as int
    };
    if from < to {
        block.subrange(from, to)
    } else {
        Seq::empty()
    }
}

/// One step of a read: opens the record of a block and appends the bytes of it
/// that lie in `offset..end`.
pub fn read_step(
    crypto: &Crypto,
    key: &[u8],
    record: &[u8],
    index: u64,
    offset: u64,
    end: u64,
    out: &mut Vec<u8>,
) -> (r: Result<(), BlockError>)
    requires
        index * BLOCK_PLAINTEXT <= end,
    ensures
        match (r, blob_open_with_key(key@, block_aad(index), record@)) {
            (Ok(()), Ok(block)) => {
                &&& final(out)@ == old(out)@ + read_part(block, index as int, offset as int, end as int)
                &&& block.len() + SEAL_OVERHEAD == record@.len()
            },
            (Err(e), Err(cause)) => e == BlockError::Crypto(cause) && final(out)@ == old(out)@,
            _ => false,
        },
{
    let block: Vec<u8> = match crypto.decrypt_block(key, index, record) {
        Ok(block) => block,
        Err(e) => {
            return Err(BlockError::Crypto(e));
        },
    };
    let start: u64 = index * BLOCK_PLAINTEXT as u64;
    let from: u64 = if offset > start {
        offset - start
    } else {
        0
    };
    let limit: u64 = end - start;
    let to: usize = if limit < block.len() as u64 {
        limit as usize
    } else {
        block.len()
    };
    if from < to as u64 {
        out.extend_from_slice(vstd::slice::slice_subrange(block.as_slice(), from as usize, to));
    }
    assert(out@ =~= old(out)@ + read_part(block@, index as int, offset as int, end as int));
    Ok(())
}

/// The record of a block in a stored file, if the file is long enough.
fn record_in(image: &[u8], size: u64, index: u64) -> (r: Option<&[u8]>)
    requires
        index < blocks_of(size as int),
    ensures
        r is Some <==> record_start(index as int) + record_size(size as int, index as int) <= image@.len(),
        r matches Some(record) ==> record@ == image@.subrange(
            record_start(index as int),
            record_start(index as int) + record_size(size as int, index as int),
        ),
{
    proof {
        lemma_record_within(size as int, index as int);
    }
    let start: u128 = index as u128 * FULL_RECORD as u128;
    let end: u128 = start + record_len(size, index) as u128;
    if end <= image.len() as u128 {
        Some(vstd::slice::slice_subrange(image, start as usize, end as usize))
    } else {
        None
    }
}

/// Reads a range of a stored file. A read past the end is cut off there.
pub fn read_range(crypto: &Crypto, key: &[u8], image: &[u8], size: u64, offset: u64, len: usize) -> (r: Result<
    Vec<u8>,
    BlockError,
>)
    ensures
        ({
            let end = read_end(size as int, offset as int, len as int);
            let first = offset as int / BLOCK_PLAINTEXT as int;
            let last = (end - 1) / BLOCK_PLAINTEXT as int;
            if read_is_empty(size as int, offset as int, len as int) {
                r matches Ok(out) && out@.len() == 0
            } else {
                match r {
                    Ok(out) => {
                        &&& blocks_readable(key@, image@, size as int, first, last + 1)
                        &&& out@ == bytes_in(key@, image@, size as int, offset as int, end)
                    },
                    Err(e) => exists|i: int|
                        {
                            &&& first <= i <= last
                            &&& #[trigger] block_at(key@, image@, size as int, i) == Err::<Seq<u8>, BlockError>(e)
                            &&& blocks_readable(key@, image@, size as int, first, i)
                        },
                }
            }
        }),
{
    let (first, last, end): (u64, u64, u64) = match read_plan(size, offset, len) {
        Some(plan) => (plan.first, plan.last, plan.end),
        None => {
            return Ok(Vec::new());
        },
    };
    let mut out: Vec<u8> = Vec::new();
    let mut index: u64 = first;
    while index <= last
        invariant
            offset < end <= size,
            end == read_end(size as int, offset as int, len as int),
            !read_is_empty(size as int, offset as int, len as int),
            first == offset as int / BLOCK_PLAINTEXT as int,
            last == (end - 1) / BLOCK_PLAINTEXT as int,
            first <= index <= last + 1,
            blocks_readable(key@, image@, size as int, first as int, index as int),
            out@ == bytes_in(
                key@,
                image@,
                size as int,
                offset as int,
                if index == first {
                    offset as int
                } else if index * BLOCK_PLAINTEXT < end {
                    index * BLOCK_PLAINTEXT
                } else {
                    end as int
                },
            ),
        decreases last + 1 - index,
    {
        proof {
            lemma_record_within(size as int, index as int);
        }
        let record: &[u8] = match record_in(image, size, index) {
            Some(record) => record,
            None => {
                assert(block_at(key@, image@, size as int, index as int) == Err::<Seq<u8>, BlockError>(
                    BlockError::Missing(index),
                ));
                return Err(BlockError::Missing(index));
            },
        };
        let ghost before = out@;
        match read_step(crypto, key, record, index, offset, end, &mut out) {
            Ok(()) => {},
            Err(e) => {
                assert(block_at(key@, image@, size as int, index as int) == Err::<Seq<u8>, BlockError>(e));
                return Err(e);
            },
        }
        proof {
            let block = blob_open_with_key(key@, block_aad(index), record@)->Ok_0;
            assert(block_at(key@, image@, size as int, index as int) == Ok::<Seq<u8>, BlockError>(block));
            let to = if (index + 1) * BLOCK_PLAINTEXT < end {
                (index + 1) * BLOCK_PLAINTEXT
            } else {
                end as int
            };
            let upto = bytes_in(key@, image@, size as int, offset as int, to);
            assert(out@.len() == upto.len());
            assert forall|k: int| 0 <= k < upto.len() implies out@[k] == upto[k] by {
                if k >= before.len() {
                    let pos = offset + k;
                    assert(pos / BLOCK_PLAINTEXT as int == index);
                    assert(pos % BLOCK_PLAINTEXT as int == pos - index * BLOCK_PLAINTEXT);
                }
            }
            assert(out@ =~= upto);
        }
        index = index + 1;
    }
    Ok(out)
}

/// How a write of `data_len` bytes at `offset` changes a file.
pub struct WritePlan {
    /// The size of the file before the write.
    pub size: u64,
    /// Where the write starts.
    pub offset: u64,
    /// The size of the file after the write.
    pub new_size: u64,
    /// The number of blocks before the write.
    pub old_blocks: u64,
    /// The number of blocks after the write.
    pub new_blocks: u64,
    /// The first block that is written.
    pub from: u64,
    /// The block after the last one that is written.
    pub to: u64,
}

/// The size of a file after a write.
pub open spec fn size_after(size: int, offset: int, data_len: int) -> int {
    if offset + data_len > size {
        offset + data_len
    } else {
        size
    }
}

/// The first block that a write concerns: the one where it starts, or the last
/// one of the file, which is filled up, where it starts behind it.
pub open spec fn touched_from(size: int, offset: int) -> int {
    let block = offset / BLOCK_PLAINTEXT as int;
    if blocks_of(size) == 0 {
        0
    } else if block < blocks_of(size) - 1 {
        block
    } else {
        blocks_of(size) - 1
    }
}

/// The block behind the last one that a write concerns.
pub open spec fn touched_to(size: int, offset: int, data_len: int) -> int {
    if offset + data_len > size {
        blocks_of(offset + data_len)
    } else if data_len == 0 {
        touched_from(size, offset)
    } else {
        (offset + data_len - 1) / BLOCK_PLAINTEXT as int + 1
    }
}

impl WritePlan {
    /// Whether this is the plan of a write.
    pub open spec fn of(&self, size: int, offset: int, data_len: int) -> bool {
        &&& self.size == size
        &&& self.offset == offset
        &&& self.new_size == size_after(size, offset, data_len)
        &&& self.old_blocks == blocks_of(size)
        &&& self.new_blocks == blocks_of(self.new_size as int)
        &&& self.from == touched_from(size, offset)
        &&& self.to == touched_to(size, offset, data_len)
    }
}

/// Plans a write: which blocks it concerns, and what size it leaves.
pub fn write_plan(size: u64, offset: u64, data_len: usize) -> (plan: WritePlan)
    requires
        offset + data_len <= u64::MAX,
    ensures
        plan.of(size as int, offset as int, data_len as int),
        plan.from <= plan.to <= plan.new_blocks,
{
    let write_end: u64 = offset + data_len as u64;
    let grows: bool = write_end > size;
    let new_size: u64 = if grows {
        write_end
    } else {
        size
    };
    let old_blocks: u64 = block_count(size);
    let new_blocks: u64 = block_count(new_size);
    let block: u64 = offset / BLOCK_PLAINTEXT as u64;
    let from: u64 = if old_blocks == 0 {
        0
    } else if block < old_blocks - 1 {
        block
    } else {
        old_blocks - 1
    };
    let to: u64 = if grows {
        new_blocks
    } else if data_len == 0 {
        from
    } else {
        (write_end - 1) / BLOCK_PLAINTEXT as u64 + 1
    };
    proof {
        lemma_touched(size as int, offset as int, data_len as int);
    }
    WritePlan { size, offset, new_size, old_blocks, new_blocks, from, to }
}

/// What a block holds after a write, where it held `base` before.
pub open spec fn written_block(base: Seq<u8>, new_size: int, index: int, offset: int, data: Seq<u8>) -> Seq<u8> {
    Seq::new(
        block_len(new_size, index) as nat,
        |k: int|
            {
                let pos = index * BLOCK_PLAINTEXT + k;
                if offset <= pos < offset + data.len() {
                    data[pos - offset]
                } else if k < base.len() {
                    base[k]
                } else {
                    0u8
                }
            },
    )
}

/// Lays bytes of `src` over bytes of `dst`.
pub(crate) fn lay_over(dst: &mut Vec<u8>, at: usize, src: &[u8], from: usize, count: usize)
    requires
        at + count <= old(dst)@.len(),
        from + count <= src@.len(),
    ensures
        final(dst)@ == Seq::new(
            old(dst)@.len(),
            |k: int|
                if at <= k < at + count {
                    src@[from + k - at]
                } else {
                    old(dst)@[k]
                },
        ),
{
    let ghost before = dst@;
    let dst_len: usize = dst.len();
    let src_len: usize = src.len();
    let mut i: usize = 0;
    while i < count
        invariant
            i <= count,
            at + count <= dst_len == before.len(),
            from + count <= src_len == src@.len(),
            dst@.len() == before.len(),
            forall|k: int|
                0 <= k < before.len() ==> #[trigger] dst@[k] == if at <= k < at + i {
                    src@[from + k - at]
                } else {
                    before[k]
                },
        decreases count - i,
    {
        dst.set(at + i, src[from + i]);
        i = i + 1;
    }
    assert(dst@ =~= Seq::new(
        before.len(),
        |k: int|
            if at <= k < at + count {
                src@[from + k - at]
            } else {
                before[k]
            },
    ));
}

/// One step of a write: the new record of a block, made from its old record,
/// which is absent for a block that the file did not have.
pub fn write_step(
    crypto: &Crypto,
    key: &[u8],
    plan: &WritePlan,
    index: u64,
    old_record: Option<&[u8]>,
    data: &[u8],
) -> (r: Result<Vec<u8>, BlockError>)
    requires
        plan.of(plan.size as int, plan.offset as int, data@.len() as int),
        plan.offset + data@.len() <= u64::MAX,
        plan.from <= index < plan.to,
    ensures
        ({
            let base: Result<Seq<u8>, CryptoError> = match old_record {
                Some(record) => blob_open_with_key(key@, block_aad(index), record@),
                None => if key@.len() == KEY_LEN {
                    Ok(Seq::empty())
                } else {
                    Err(CryptoError::KeyLength)
                },
            };
            match (r, base) {
                (Ok(record), Ok(base)) => blob_seals(
                    key@,
                    block_aad(index),
                    written_block(base, plan.new_size as int, index as int, plan.offset as int, data@),
                    record@,
                ) && key@.len() == KEY_LEN && nonce_drawn(record@),
                (Err(e), Err(cause)) => e == BlockError::Crypto(cause),
                _ => false,
            }
        }),
{
    let mut buf: Vec<u8> = match old_record {
        Some(record) => match crypto.decrypt_block(key, index, record) {
            Ok(block) => block,
            Err(e) => {
                return Err(BlockError::Crypto(e));
            },
        },
        None => Vec::new(),
    };
    let ghost base = buf@;
    proof {
        lemma_touched(plan.size as int, plan.offset as int, data@.len() as int);
        lemma_record_within(plan.new_size as int, index as int);
    }
    let target: usize = plaintext_len(plan.new_size, index);
    buf.resize(target, 0);
    let ghost resized = buf@;
    let block_start: u64 = index * BLOCK_PLAINTEXT as u64;
    let block_end: u64 = block_start + target as u64;
    let data_end: u64 = plan.offset + data.len() as u64;
    let write_start: u64 = if plan.offset > block_start {
        plan.offset
    } else {
        block_start
    };
    let write_end: u64 = if data_end < block_end {
        data_end
    } else {
        block_end
    };
    if write_start < write_end {
        lay_over(
            &mut buf,
            (write_start - block_start) as usize,
            data,
            (write_start - plan.offset) as usize,
            (write_end - write_start) as usize,
        );
    }
    proof {
        let wanted = written_block(base, plan.new_size as int, index as int, plan.offset as int, data@);
        assert(buf@.len() == wanted.len());
        assert forall|k: int| 0 <= k < wanted.len() implies buf@[k] == wanted[k] by {
            let pos = index * BLOCK_PLAINTEXT + k;
            assert(resized[k] == if k < base.len() {
                base[k]
            } else {
                0u8
            });
        }
        assert(buf@ =~= wanted);
    }
    match crypto.encrypt_block(key, index, buf.as_slice()) {
        Ok(record) => Ok(record),
        Err(e) => Err(BlockError::Crypto(e)),
    }
}

/// A write concerns blocks of the file that it leaves.
proof fn lemma_touched(size: int, offset: int, data_len: int)
    requires
        0 <= size,
        0 <= offset,
        0 <= data_len,
    ensures
        0 <= touched_from(size, offset) <= touched_to(size, offset, data_len) <= blocks_of(
            size_after(size, offset, data_len),
        ),
{
}

/// A stored file after a record was written into it.
pub open spec fn image_with_record(image: Seq<u8>, start: int, record: Seq<u8>) -> Seq<u8> {
    Seq::new(
        if start + record.len() > image.len() {
            (start + record.len()) as nat
        } else {
            image.len()
        },
        |k: int|
            if start <= k < start + record.len() {
                record[k - start]
            } else if k < image.len() {
                image[k]
            } else {
                0u8
            },
    )
}

/// Writes a record into a stored file, which grows where it is too short.
fn put_record(image: &mut Vec<u8>, start: usize, record: &[u8])
    requires
        start + record@.len() <= usize::MAX,
    ensures
        final(image)@ == image_with_record(old(image)@, start as int, record@),
{
    let ghost before = image@;
    if image.len() < start + record.len() {
        image.resize(start + record.len(), 0);
    }
    lay_over(image, start, record, 0, record.len());
    assert(image@ =~= image_with_record(before, start as int, record@));
}

/// The nonce of a record in a stored file.
pub open spec fn nonce_at(image: Seq<u8>, index: int) -> Seq<u8> {
    image.subrange(record_start(index), record_start(index) + NONCE_LEN)
}

/// Whether the nonces of records in a stored file were drawn for them.
pub open spec fn nonces_drawn(image: Seq<u8>, from: int, to: int) -> bool {
    forall|i: int| from <= i < to ==> drawn(#[trigger] nonce_at(image, i))
}

/// What stops a write at a block, if anything does.
pub open spec fn write_fault(key: Seq<u8>, image: Seq<u8>, size: int, index: int) -> Option<BlockError> {
    if index < blocks_of(size) {
        match block_at(key, image, size, index) {
            Ok(_) => None,
            Err(e) => Some(e),
        }
    } else if key.len() != KEY_LEN {
        Some(BlockError::Crypto(CryptoError::KeyLength))
    } else {
        None
    }
}

/// Whether nothing stops a write at the blocks from `from` up to `to`.
pub open spec fn no_fault(key: Seq<u8>, image: Seq<u8>, size: int, from: int, to: int) -> bool {
    forall|i: int| from <= i < to ==> (#[trigger] write_fault(key, image, size, i)) is None
}

/// What a block holds before a write; nothing, for a block that is new.
pub open spec fn old_block(key: Seq<u8>, image: Seq<u8>, size: int, index: int) -> Seq<u8> {
    if index < blocks_of(size) {
        block_at(key, image, size, index)->Ok_0
    } else {
        Seq::empty()
    }
}

/// Whether the blocks from `from` up to `to` are those that a write leaves.
pub open spec fn blocks_written(
    key: Seq<u8>,
    before: Seq<u8>,
    after: Seq<u8>,
    size: int,
    offset: int,
    data: Seq<u8>,
    from: int,
    to: int,
) -> bool {
    let new_size = size_after(size, offset, data.len() as int);
    forall|i: int|
        from <= i < to ==> #[trigger] block_at(key, after, new_size, i) == Ok::<Seq<u8>, BlockError>(
            written_block(old_block(key, before, size, i), new_size, i, offset, data),
        )
}

/// Whether two stored files agree outside a range, as far as both reach.
pub open spec fn same_outside(before: Seq<u8>, after: Seq<u8>, from: int, to: int) -> bool {
    forall|p: int|
        #![trigger after[p]]
        0 <= p < before.len() && p < after.len() && !(from <= p < to) ==> after[p] == before[p]
}

/// Whether `after` is what a write makes of the stored file `before`: the
/// blocks that the write concerns hold their new bytes, every byte outside of
/// their records is kept, and the file has the length of its new size.
pub open spec fn write_done(
    key: Seq<u8>,
    before: Seq<u8>,
    after: Seq<u8>,
    size: int,
    offset: int,
    data: Seq<u8>,
) -> bool {
    let new_size = size_after(size, offset, data.len() as int);
    let from = touched_from(size, offset);
    let to = touched_to(size, offset, data.len() as int);
    &&& new_size == 0 ==> after == before
    &&& new_size > 0 ==> after.len() == stored_len(new_size)
    &&& same_outside(before, after, record_start(from), record_start(to))
    &&& blocks_written(key, before, after, size, offset, data, from, to)
}

/// A block is read alike from stored files that agree on its record.
proof fn lemma_block_is_local(key: Seq<u8>, a: Seq<u8>, b: Seq<u8>, size: int, index: int)
    requires
        0 <= index,
        record_start(index) + record_size(size, index) <= a.len(),
        record_start(index) + record_size(size, index) <= b.len(),
        forall|p: int|
            record_start(index) <= p < record_start(index) + record_size(size, index) ==> #[trigger] a[p] == b[p],
    ensures
        block_at(key, a, size, index) == block_at(key, b, size, index),
{
    let start = record_start(index);
    let end = start + record_size(size, index);
    assert(a.subrange(start, end) =~= b.subrange(start, end));
}

/// The record that was just written is read back.
proof fn lemma_put_then_read(key: Seq<u8>, image: Seq<u8>, size: int, index: int, plaintext: Seq<u8>, record: Seq<u8>)
    requires
        0 <= index <= u64::MAX,
        key.len() == KEY_LEN,
        plaintext.len() == block_len(size, index),
        blob_seals(key, block_aad(index as u64), plaintext, record),
    ensures
        block_at(key, image_with_record(image, record_start(index), record), size, index) == Ok::<
            Seq<u8>,
            BlockError,
        >(plaintext),
{
    let start = record_start(index);
    let end = start + record_size(size, index);
    let after = image_with_record(image, start, record);
    assert(after.subrange(start, end) =~= record);
    law_unseal_undoes_seal(key, block_aad(index as u64), plaintext, record);
}

/// A file that grew is stored at least as long as before.
pub proof fn lemma_stored_len_grows(size: int, new_size: int)
    requires
        0 <= size <= new_size,
    ensures
        0 <= stored_len(size) <= stored_len(new_size),
        blocks_of(size) <= blocks_of(new_size),
{
}

/// Writes data into a stored file and returns the size that the file then has.
/// Only the records of the blocks that the write concerns change. A gap behind
/// the old end is filled with zeros.
pub fn write_range(crypto: &Crypto, key: &[u8], image: &mut Vec<u8>, size: u64, offset: u64, data: &[u8]) -> (r: Result<
    u64,
    BlockError,
>)
    requires
        offset + data@.len() <= u64::MAX,
        stored_len(size_after(size as int, offset as int, data@.len() as int)) <= usize::MAX,
    ensures
        ({
            let new_size = size_after(size as int, offset as int, data@.len() as int);
            let from = touched_from(size as int, offset as int);
            let to = touched_to(size as int, offset as int, data@.len() as int);
            match r {
                Ok(n) => {
                    &&& n == new_size
                    &&& no_fault(key@, old(image)@, size as int, from, to)
                    &&& write_done(key@, old(image)@, final(image)@, size as int, offset as int, data@)
                    &&& nonces_drawn(final(image)@, from, to)
                },
                Err(e) => exists|i: int|
                    {
                        &&& from <= i < to
                        &&& #[trigger] write_fault(key@, old(image)@, size as int, i) == Some(e)
                        &&& no_fault(key@, old(image)@, size as int, from, i)
                        &&& final(image)@.len() == old(image)@.len()
                        &&& same_outside(old(image)@, final(image)@, record_start(from), record_start(i))
                        &&& blocks_written(
                            key@,
                            old(image)@,
                            final(image)@,
                            size as int,
                            offset as int,
                            data@,
                            from,
                            i,
                        )
                    },
            }
        }),
{
    let ghost before = image@;
    let plan: WritePlan = write_plan(size, offset, data.len());
    let ghost new_size = plan.new_size as int;
    proof {
        lemma_stored_len_grows(size as int, new_size);
    }
    if plan.new_blocks == 0 {
        return Ok(plan.new_size);
    }
    let mut index: u64 = plan.from;
    while index < plan.to
        invariant
            plan.of(size as int, offset as int, data@.len() as int),
            plan.from <= index <= plan.to <= plan.new_blocks,
            new_size == plan.new_size,
            size <= new_size,
            offset + data@.len() <= u64::MAX,
            stored_len(size as int) <= stored_len(new_size) <= usize::MAX,
            before == old(image)@,
            before.len() <= image@.len(),
            index < plan.old_blocks || index == plan.from ==> image@.len() == before.len(),
            index > plan.from ==> key@.len() == KEY_LEN,
            index > plan.from ==> record_start(index - 1) + record_size(new_size, index - 1) <= image@.len(),
            no_fault(key@, before, size as int, plan.from as int, index as int),
            same_outside(before, image@, record_start(plan.from as int), record_start(index as int)),
            nonces_drawn(image@, plan.from as int, index as int),
            blocks_written(
                key@,
                before,
                image@,
                size as int,
                offset as int,
                data@,
                plan.from as int,
                index as int,
            ),
        decreases plan.to - index,
    {
        proof {
            lemma_record_within(new_size, index as int);
        }
        let ghost current = image@;
        let old_record: Option<&[u8]> = if index < plan.old_blocks {
            match record_in(image.as_slice(), size, index) {
                Some(record) => {
                    proof {
                        lemma_block_is_local(key@, before, current, size as int, index as int);
                    }
                    Some(record)
                },
                None => {
                    assert(write_fault(key@, before, size as int, index as int) == Some(BlockError::Missing(index)));
                    return Err(BlockError::Missing(index));
                },
            }
        } else {
            None
        };
        let ghost wanted = written_block(
            old_block(key@, before, size as int, index as int),
            new_size,
            index as int,
            offset as int,
            data@,
        );
        let record: Vec<u8> = match write_step(crypto, key, &plan, index, old_record, data) {
            Ok(record) => record,
            Err(e) => {
                assert(write_fault(key@, before, size as int, index as int) == Some(e));
                return Err(e);
            },
        };
        assert(write_fault(key@, before, size as int, index as int) is None);
        assert(blob_seals(key@, block_aad(index), wanted, record@));
        let start: u64 = record_offset(index);
        put_record(image, start as usize, record.as_slice());
        proof {
            lemma_put_then_read(key@, current, new_size, index as int, wanted, record@);
            assert forall|i: int| plan.from <= i < index + 1 implies drawn(#[trigger] nonce_at(image@, i)) by {
                if i < index {
                    assert(drawn(nonce_at(current, i)));
                    assert(nonce_at(image@, i) =~= nonce_at(current, i));
                } else {
                    assert(nonce_at(image@, i) =~= record@.subrange(0, NONCE_LEN as int));
                }
            }
            assert forall|i: int| plan.from <= i < index + 1 implies #[trigger] block_at(key@, image@, new_size, i)
                == Ok::<Seq<u8>, BlockError>(
                written_block(old_block(key@, before, size as int, i), new_size, i, offset as int, data@),
            ) by {
                if i < index {
                    lemma_record_within(new_size, i);
                    assert(block_at(key@, current, new_size, i) is Ok);
                    lemma_block_is_local(key@, current, image@, new_size, i);
                }
            }
        }
        index = index + 1;
    }
    let last: u64 = plan.new_blocks - 1;
    proof {
        lemma_record_within(new_size, last as int);
    }
    let end: u64 = record_offset(last) + record_len(plan.new_size, last) as u64;
    let ghost written = image@;
    image.resize(end as usize, 0);
    proof {
        assert(end == stored_len(new_size));
        assert forall|i: int| plan.from <= i < plan.to implies drawn(#[trigger] nonce_at(image@, i)) by {
            assert(drawn(nonce_at(written, i)));
            assert(nonce_at(image@, i) =~= nonce_at(written, i));
        }
        assert(same_outside(before, image@, record_start(plan.from as int), record_start(plan.to as int))) by {
            assert forall|p: int|
                #![trigger image@[p]]
                0 <= p < before.len() && p < image@.len() && !(record_start(plan.from as int) <= p < record_start(
                    plan.to as int,
                )) implies image@[p] == before[p] by {
                assert(written[p] == before[p]);
            }
        }
        assert forall|i: int| plan.from <= i < plan.to implies #[trigger] block_at(key@, image@, new_size, i) == Ok::<
            Seq<u8>,
            BlockError,
        >(written_block(old_block(key@, before, size as int, i), new_size, i, offset as int, data@)) by {
            lemma_record_within(new_size, i);
            assert(block_at(key@, written, new_size, i) is Ok);
            lemma_block_is_local(key@, written, image@, new_size, i);
        }
    }
    Ok(plan.new_size)
}

/// How a file gets another size.
#[derive(Clone, Copy, Debug, PartialEq, Eq, Structural)]
pub enum ResizePlan {
    /// The file stays as it is.
    Keep,
    /// The file is filled up by an empty write at its new end.
    Grow,
    /// The file loses all its blocks.
    Clear,
    /// The file is cut within a block, which becomes its last one.
    Cut {
        /// The block.
        last: u64,
        /// How many bytes the block keeps.
        target: usize,
    },
}

/// Plans how a file gets another size.
pub fn resize_plan(size: u64, new_size: u64) -> (plan: ResizePlan)
    ensures
        plan == ResizePlan::Keep <==> new_size == size,
        plan == ResizePlan::Grow <==> new_size > size,
        plan == ResizePlan::Clear <==> new_size == 0 < size,
        plan is Cut <==> 0 < new_size < size,
        plan matches ResizePlan::Cut { last, target } ==> {
            &&& last == blocks_of(new_size as int) - 1
            &&& target == block_len(new_size as int, last as int)
        },
{
    if new_size > size {
        ResizePlan::Grow
    } else if new_size == size {
        ResizePlan::Keep
    } else if new_size == 0 {
        ResizePlan::Clear
    } else {
        let last: u64 = block_count(new_size) - 1;
        ResizePlan::Cut { last, target: plaintext_len(new_size, last) }
    }
}

/// Cuts the block that becomes the last one of a file: the new record, made
/// from the old one.
pub fn shrink_step(crypto: &Crypto, key: &[u8], index: u64, record: &[u8], target: usize) -> (r: Result<
    Vec<u8>,
    BlockError,
>)
    requires
        target + SEAL_OVERHEAD <= record@.len(),
        target <= BLOCK_PLAINTEXT,
    ensures
        match (r, blob_open_with_key(key@, block_aad(index), record@)) {
            (Ok(new_record), Ok(block)) => {
                &&& target <= block.len()
                &&& key@.len() == KEY_LEN
                &&& blob_seals(key@, block_aad(index), block.subrange(0, target as int), new_record@)
                &&& nonce_drawn(new_record@)
            },
            (Err(e), Err(cause)) => e == BlockError::Crypto(cause),
            _ => false,
        },
{
    let mut block: Vec<u8> = match crypto.decrypt_block(key, index, record) {
        Ok(block) => block,
        Err(e) => {
            return Err(BlockError::Crypto(e));
        },
    };
    let ghost whole = block@;
    block.truncate(target);
    assert(block@ =~= whole.subrange(0, target as int));
    match crypto.encrypt_block(key, index, block.as_slice()) {
        Ok(record) => Ok(record),
        Err(e) => Err(BlockError::Crypto(e)),
    }
}

/// Whether `after` is what cutting a file to a smaller size makes of the stored
/// file `before`: the block that is now the last one is cut, and every byte in
/// front of its record is kept.
pub open spec fn shrink_done(key: Seq<u8>, before: Seq<u8>, after: Seq<u8>, size: int, new_size: int) -> bool {
    let last = blocks_of(new_size) - 1;
    &&& after.len() == stored_len(new_size)
    &&& new_size > 0 ==> {
        &&& forall|p: int| 0 <= p < record_start(last) ==> #[trigger] after[p] == before[p]
        &&& block_at(key, before, size, last) is Ok
        &&& block_at(key, after, new_size, last) == Ok::<Seq<u8>, BlockError>(
            block_at(key, before, size, last)->Ok_0.subrange(0, block_len(new_size, last)),
        )
        &&& record_start(last) <= before.len()
    }
}

/// Gives a stored file another size. What lies behind a smaller size is gone;
/// up to a larger one the file is filled with zeros.
pub fn truncate(crypto: &Crypto, key: &[u8], image: &mut Vec<u8>, size: u64, new_size: u64) -> (r: Result<
    (),
    BlockError,
>)
    requires
        new_size > size ==> stored_len(new_size as int) <= usize::MAX,
    ensures
        ({
            let from = touched_from(size as int, new_size as int);
            let to = touched_to(size as int, new_size as int, 0);
            let last = blocks_of(new_size as int) - 1;
            if new_size > size {
                match r {
                    Ok(()) => {
                        &&& no_fault(key@, old(image)@, size as int, from, to)
                        &&& write_done(
                            key@,
                            old(image)@,
                            final(image)@,
                            size as int,
                            new_size as int,
                            Seq::empty(),
                        )
                        &&& nonces_drawn(final(image)@, from, to)
                    },
                    Err(e) => exists|i: int|
                        {
                            &&& from <= i < to
                            &&& #[trigger] write_fault(key@, old(image)@, size as int, i) == Some(e)
                            &&& no_fault(key@, old(image)@, size as int, from, i)
                            &&& final(image)@.len() == old(image)@.len()
                            &&& same_outside(old(image)@, final(image)@, record_start(from), record_start(i))
                            &&& blocks_written(
                                key@,
                                old(image)@,
                                final(image)@,
                                size as int,
                                new_size as int,
                                Seq::empty(),
                                from,
                                i,
                            )
                        },
                }
            } else if new_size == size {
                r is Ok && final(image)@ == old(image)@
            } else {
                match r {
                    Ok(()) => {
                        &&& shrink_done(key@, old(image)@, final(image)@, size as int, new_size as int)
                        &&& new_size > 0 ==> nonces_drawn(final(image)@, last, last + 1)
                    },
                    Err(e) => {
                        &&& new_size > 0
                        &&& block_at(key@, old(image)@, size as int, last) == Err::<Seq<u8>, BlockError>(e)
                        &&& final(image)@ == old(image)@
                    },
                }
            }
        }),
{
    let (last, target): (u64, usize) = match resize_plan(size, new_size) {
        ResizePlan::Grow => {
            let nothing: [u8; 0] = [];
            assert(nothing@ =~= Seq::empty());
            return match write_range(crypto, key, image, size, new_size, vstd::array::array_as_slice(&nothing)) {
                Ok(_) => Ok(()),
                Err(e) => Err(e),
            };
        },
        ResizePlan::Keep => {
            return Ok(());
        },
        ResizePlan::Clear => {
            image.truncate(0);
            return Ok(());
        },
        ResizePlan::Cut { last, target } => (last, target),
    };
    let ghost before = image@;
    proof {
        lemma_stored_len_grows(new_size as int, size as int);
        lemma_record_within(new_size as int, last as int);
        lemma_record_within(size as int, last as int);
    }
    let record: Vec<u8> = match record_in(image.as_slice(), size, last) {
        Some(record) => match shrink_step(crypto, key, last, record, target) {
            Ok(record) => record,
            Err(e) => {
                return Err(e);
            },
        },
        None => {
            return Err(BlockError::Missing(last));
        },
    };
    assert(record_start(last as int) + record@.len() <= image.len());
    let start: u64 = record_offset(last);
    put_record(image, start as usize, record.as_slice());
    let ghost written = image@;
    let ghost kept = block_at(key@, before, size as int, last as int)->Ok_0.subrange(0, target as int);
    proof {
        lemma_put_then_read(key@, before, new_size as int, last as int, kept, record@);
    }
    image.truncate(start as usize + record.len());
    proof {
        lemma_block_is_local(key@, written, image@, new_size as int, last as int);
        assert(nonce_at(image@, last as int) =~= record@.subrange(0, NONCE_LEN as int));
    }
    Ok(())
}

/// A text after a write: the data in its place, the old bytes around it, and
/// zeros in a gap between the old end and the data.
pub open spec fn overwritten(text: Seq<u8>, offset: int, data: Seq<u8>) -> Seq<u8> {
    Seq::new(
        size_after(text.len() as int, offset, data.len() as int) as nat,
        |p: int|
            if offset <= p < offset + data.len() {
                data[p - offset]
            } else if p < text.len() {
                text[p]
            } else {
                0u8
            },
    )
}

/// A text after its size was changed: cut off, or filled up with zeros.
pub open spec fn resized(text: Seq<u8>, new_size: int) -> Seq<u8> {
    Seq::new(
        new_size as nat,
        |p: int|
            if p < text.len() {
                text[p]
            } else {
                0u8
            },
    )
}

/// Reading a range of a stored file succeeds and returns that range of the text
/// which the file holds, cut off at its end.
pub proof fn law_read_returns_the_text(key: Seq<u8>, image: Seq<u8>, text: Seq<u8>, offset: int, len: int)
    requires
        image_holds(key, image, text),
        0 <= offset,
        0 <= len,
        !read_is_empty(text.len() as int, offset, len),
    ensures
        ({
            let size = text.len() as int;
            let end = read_end(size, offset, len);
            &&& blocks_readable(
                key,
                image,
                size,
                offset / BLOCK_PLAINTEXT as int,
                (end - 1) / BLOCK_PLAINTEXT as int + 1,
            )
            &&& bytes_in(key, image, size, offset, end) == text.subrange(offset, end)
        }),
{
    let size = text.len() as int;
    let end = read_end(size, offset, len);
    assert forall|k: int| 0 <= k < end - offset implies bytes_in(key, image, size, offset, end)[k] == text.subrange(
        offset,
        end,
    )[k] by {
        let pos = offset + k;
        let i = pos / BLOCK_PLAINTEXT as int;
        assert(0 <= i < blocks_of(size));
        assert(block_at(key, image, size, i) == Ok::<Seq<u8>, BlockError>(text_block(text, i)));
        assert(text_block(text, i)[pos % BLOCK_PLAINTEXT as int] == text[pos]);
    }
    assert(bytes_in(key, image, size, offset, end) =~= text.subrange(offset, end));
}

/// Nothing stops a write into a stored file that holds a text.
pub proof fn law_write_into_a_sound_file_succeeds(key: Seq<u8>, image: Seq<u8>, text: Seq<u8>, offset: int, data_len: int)
    requires
        key.len() == KEY_LEN,
        image_holds(key, image, text),
        0 <= offset,
        0 <= data_len,
    ensures
        no_fault(
            key,
            image,
            text.len() as int,
            touched_from(text.len() as int, offset),
            touched_to(text.len() as int, offset, data_len),
        ),
{
    let size = text.len() as int;
    lemma_touched(size, offset, data_len);
    assert forall|i: int| touched_from(size, offset) <= i < touched_to(size, offset, data_len) implies (
    #[trigger] write_fault(key, image, size, i)) is None by {
        if i < blocks_of(size) {
            assert(block_at(key, image, size, i) is Ok);
        }
    }
}

/// After a write the stored file holds the text with the data laid over it: the
/// bytes outside the data are kept, and a gap is filled with zeros.
pub proof fn law_write_overwrites_the_text(
    key: Seq<u8>,
    before: Seq<u8>,
    after: Seq<u8>,
    text: Seq<u8>,
    offset: int,
    data: Seq<u8>,
)
    requires
        image_holds(key, before, text),
        0 <= offset,
        write_done(key, before, after, text.len() as int, offset, data),
    ensures
        image_holds(key, after, overwritten(text, offset, data)),
{
    let size = text.len() as int;
    let new_text = overwritten(text, offset, data);
    let new_size = new_text.len() as int;
    let from = touched_from(size, offset);
    let to = touched_to(size, offset, data.len() as int);
    lemma_touched(size, offset, data.len() as int);
    assert forall|i: int| 0 <= i < blocks_of(new_size) implies #[trigger] block_at(key, after, new_size, i) == Ok::<
        Seq<u8>,
        BlockError,
    >(text_block(new_text, i)) by {
        lemma_record_within(new_size, i);
        if i < blocks_of(size) {
            assert(block_at(key, before, size, i) == Ok::<Seq<u8>, BlockError>(text_block(text, i)));
            lemma_record_within(size, i);
        }
        if from <= i < to {
            let block = written_block(old_block(key, before, size, i), new_size, i, offset, data);
            assert(block_at(key, after, new_size, i) == Ok::<Seq<u8>, BlockError>(block));
            assert(block =~= text_block(new_text, i));
        } else {
            assert(i < blocks_of(size));
            assert(block_len(new_size, i) == block_len(size, i));
            assert forall|p: int|
                record_start(i) <= p < record_start(i) + record_size(new_size, i) implies #[trigger] before[p]
                == after[p] by {
                assert(p < before.len());
                assert(p < after.len());
            }
            lemma_block_is_local(key, before, after, size, i);
            assert(text_block(text, i) =~= text_block(new_text, i));
        }
    }
}

/// A read of what a write just wrote returns the data.
pub proof fn law_read_gives_back_what_was_written(
    key: Seq<u8>,
    before: Seq<u8>,
    after: Seq<u8>,
    text: Seq<u8>,
    offset: int,
    data: Seq<u8>,
)
    requires
        image_holds(key, before, text),
        0 <= offset,
        0 < data.len(),
        write_done(key, before, after, text.len() as int, offset, data),
    ensures
        bytes_in(
            key,
            after,
            size_after(text.len() as int, offset, data.len() as int),
            offset,
            offset + data.len(),
        ) == data,
{
    let new_text = overwritten(text, offset, data);
    law_write_overwrites_the_text(key, before, after, text, offset, data);
    law_read_returns_the_text(key, after, new_text, offset, data.len() as int);
    assert(new_text.subrange(offset, offset + data.len()) =~= data);
}

/// After its size was changed, whichever way, the stored file holds the text
/// cut off at the new size or filled up to it with zeros.
pub proof fn law_truncate_resizes_the_text(
    key: Seq<u8>,
    before: Seq<u8>,
    after: Seq<u8>,
    text: Seq<u8>,
    new_size: int,
)
    requires
        image_holds(key, before, text),
        0 <= new_size,
        resize_done(key, before, after, text.len() as int, new_size),
    ensures
        image_holds(key, after, resized(text, new_size)),
{
    let size = text.len() as int;
    let new_text = resized(text, new_size);
    if new_size > size {
        law_write_overwrites_the_text(key, before, after, text, new_size, Seq::empty());
        assert(overwritten(text, new_size, Seq::empty()) =~= new_text);
    } else if new_size == size {
        assert(new_text =~= text);
    } else {
        let last = blocks_of(new_size) - 1;
        assert forall|i: int| 0 <= i < blocks_of(new_size) implies #[trigger] block_at(key, after, new_size, i) == Ok::<
            Seq<u8>,
            BlockError,
        >(text_block(new_text, i)) by {
            lemma_record_within(new_size, i);
            lemma_record_within(size, i);
            assert(block_at(key, before, size, i) == Ok::<Seq<u8>, BlockError>(text_block(text, i)));
            if i < last {
                lemma_block_is_local(key, before, after, size, i);
                assert(text_block(text, i) =~= text_block(new_text, i));
            } else {
                assert(text_block(text, i).subrange(0, block_len(new_size, i)) =~= text_block(new_text, i));
            }
        }
    }
}

/// What a read of a whole file of a size gives: every block can be read, and the
/// bytes are those of a text.
pub open spec fn reads_whole(key: Seq<u8>, image: Seq<u8>, text: Seq<u8>) -> bool {
    let size = text.len() as int;
    &&& blocks_readable(key, image, size, 0, blocks_of(size))
    &&& bytes_in(key, image, size, 0, size) == text
}

/// A stored file that holds a text is read as this text.
proof fn lemma_reads_whole(key: Seq<u8>, image: Seq<u8>, text: Seq<u8>)
    requires
        image_holds(key, image, text),
    ensures
        reads_whole(key, image, text),
{
    let size = text.len() as int;
    if size > 0 {
        law_read_returns_the_text(key, image, text, 0, size);
        assert(text.subrange(0, size) =~= text);
        assert((size - 1) / BLOCK_PLAINTEXT as int + 1 == blocks_of(size));
    } else {
        assert(bytes_in(key, image, size, 0, size) =~= text);
    }
}

/// A read of the whole file after a write gives the data where it was written, the
/// old bytes around it, and zeros in a gap.
pub proof fn law_write_then_read(
    key: Seq<u8>,
    before: Seq<u8>,
    after: Seq<u8>,
    text: Seq<u8>,
    offset: int,
    data: Seq<u8>,
)
    requires
        image_holds(key, before, text),
        0 <= offset,
        write_done(key, before, after, text.len() as int, offset, data),
    ensures
        overwritten(text, offset, data).len() == size_after(text.len() as int, offset, data.len() as int),
        reads_whole(key, after, overwritten(text, offset, data)),
{
    law_write_overwrites_the_text(key, before, after, text, offset, data);
    lemma_reads_whole(key, after, overwritten(text, offset, data));
}

/// What changing the size of a stored file does, whichever way.
pub open spec fn resize_done(key: Seq<u8>, before: Seq<u8>, after: Seq<u8>, size: int, new_size: int) -> bool {
    if new_size > size {
        write_done(key, before, after, size, new_size, Seq::empty())
    } else if new_size == size {
        after == before
    } else {
        shrink_done(key, before, after, size, new_size)
    }
}

/// A read of the whole file after its size was changed gives the old bytes up to
/// the smaller of the two sizes, and zeros behind them.
pub proof fn law_resize_then_read(key: Seq<u8>, before: Seq<u8>, after: Seq<u8>, text: Seq<u8>, new_size: int)
    requires
        image_holds(key, before, text),
        0 <= new_size,
        resize_done(key, before, after, text.len() as int, new_size),
    ensures
        reads_whole(key, after, resized(text, new_size)),
{
    law_truncate_resizes_the_text(key, before, after, text, new_size);
    lemma_reads_whole(key, after, resized(text, new_size));
}

/// A file that was cut and then grows again has zeros where it was cut, never the
/// bytes that were there before.
pub proof fn law_what_was_cut_off_stays_gone(
    key: Seq<u8>,
    before: Seq<u8>,
    cut: Seq<u8>,
    after: Seq<u8>,
    text: Seq<u8>,
    small: int,
    large: int,
    pos: int,
)
    requires
        image_holds(key, before, text),
        0 <= small <= pos < large,
        small <= text.len(),
        resize_done(key, before, cut, text.len() as int, small),
        resize_done(key, cut, after, small, large),
    ensures
        reads_whole(key, after, resized(resized(text, small), large)),
        resized(resized(text, small), large)[pos] == 0,
{
    law_truncate_resizes_the_text(key, before, cut, text, small);
    law_truncate_resizes_the_text(key, cut, after, resized(text, small), large);
    lemma_reads_whole(key, after, resized(resized(text, small), large));
}

/// A file without bytes is held by every stored file, the empty one included.
pub proof fn law_empty_file_is_held(key: Seq<u8>, image: Seq<u8>)
    ensures
        image_holds(key, image, Seq::empty()),
{
}

} // verus!
