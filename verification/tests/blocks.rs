use pqfs::crypto::keys::KdfParams;
use pqfs::crypto::Crypto;
use pqfs::crypto::NONCE_LEN;
use pqfs::error::BlockError;
use pqfs::error::CryptoError;
use pqfs::fs::blocks::block_count;
use pqfs::fs::blocks::plaintext_len;
use pqfs::fs::blocks::read_plan;
use pqfs::fs::blocks::read_range;
use pqfs::fs::blocks::record_len;
use pqfs::fs::blocks::record_offset;
use pqfs::fs::blocks::resize_plan;
use pqfs::fs::blocks::stored_length;
use pqfs::fs::blocks::truncate;
use pqfs::fs::blocks::write_plan;
use pqfs::fs::blocks::write_range;
use pqfs::fs::blocks::ReadPlan;
use pqfs::fs::blocks::ResizePlan;
use pqfs::fs::blocks::BLOCK_PLAINTEXT;
use pqfs::fs::blocks::FULL_RECORD;

fn setup() -> (Crypto, Vec<u8>) {
    let kdf = KdfParams { m_cost: 8, t_cost: 1, p_cost: 1 };
    let (crypto, _) = Crypto::init_with_params("pw", false, kdf).unwrap();
    let key = crypto.random_key().as_slice().to_vec();
    (crypto, key)
}

#[test]
fn read_past_eof_returns_empty() {
    let (crypto, key) = setup();
    let mut file = Vec::new();
    let size = write_range(&crypto, &key, &mut file, 0, 0, b"hello").unwrap();
    assert_eq!(size, 5);

    assert!(read_range(&crypto, &key, &file, size, 5, 4096).unwrap().is_empty());
    assert!(read_range(&crypto, &key, &file, size, 100_000, 4096).unwrap().is_empty());
    assert_eq!(read_range(&crypto, &key, &file, size, 2, 4096).unwrap(), b"llo");
}

#[test]
fn writes_spanning_blocks_round_trip() {
    let (crypto, key) = setup();
    let mut file = Vec::new();
    let payload: Vec<u8> = (0..BLOCK_PLAINTEXT * 2 + 1234).map(|i| (i % 251) as u8).collect();

    let size = write_range(&crypto, &key, &mut file, 0, 0, &payload).unwrap();
    assert_eq!(size as usize, payload.len());
    assert_eq!(block_count(size), 3);

    let read = read_range(&crypto, &key, &file, size, 0, payload.len()).unwrap();
    assert_eq!(read, payload);

    let mid = read_range(&crypto, &key, &file, size, BLOCK_PLAINTEXT as u64 - 10, 20).unwrap();
    assert_eq!(mid, &payload[BLOCK_PLAINTEXT - 10..BLOCK_PLAINTEXT + 10]);
}

#[test]
fn partial_overwrite_leaves_the_rest_intact() {
    let (crypto, key) = setup();
    let mut file = Vec::new();
    let payload = vec![b'a'; BLOCK_PLAINTEXT + 500];
    let size = write_range(&crypto, &key, &mut file, 0, 0, &payload).unwrap();

    let size = write_range(&crypto, &key, &mut file, size, 10, b"ZZZZ").unwrap();
    let read = read_range(&crypto, &key, &file, size, 0, size as usize).unwrap();
    assert_eq!(&read[0..10], &payload[0..10]);
    assert_eq!(&read[10..14], b"ZZZZ");
    assert_eq!(&read[14..], &payload[14..]);
}

#[test]
fn sparse_write_zero_fills_the_gap() {
    let (crypto, key) = setup();
    let mut file = Vec::new();
    let size = write_range(&crypto, &key, &mut file, 0, 0, b"ab").unwrap();

    let size = write_range(&crypto, &key, &mut file, size, BLOCK_PLAINTEXT as u64 + 5, b"cd").unwrap();
    assert_eq!(size as usize, BLOCK_PLAINTEXT + 7);

    let read = read_range(&crypto, &key, &file, size, 0, size as usize).unwrap();
    assert_eq!(&read[0..2], b"ab");
    assert!(read[2..BLOCK_PLAINTEXT + 5].iter().all(|b| *b == 0));
    assert_eq!(&read[BLOCK_PLAINTEXT + 5..], b"cd");
}

#[test]
fn truncate_shrinks_and_grows() {
    let (crypto, key) = setup();
    let mut file = Vec::new();
    let payload = vec![b'x'; BLOCK_PLAINTEXT * 2];
    let size = write_range(&crypto, &key, &mut file, 0, 0, &payload).unwrap();

    truncate(&crypto, &key, &mut file, size, 100).unwrap();
    let read = read_range(&crypto, &key, &file, 100, 0, 4096).unwrap();
    assert_eq!(read.len(), 100);
    assert!(read.iter().all(|b| *b == b'x'));

    truncate(&crypto, &key, &mut file, 100, 0).unwrap();
    assert!(read_range(&crypto, &key, &file, 0, 0, 4096).unwrap().is_empty());
}

#[test]
fn a_block_cannot_be_replayed_at_another_index() {
    let (crypto, key) = setup();
    let mut file = Vec::new();
    let mut payload = vec![b'a'; BLOCK_PLAINTEXT];
    payload.extend_from_slice(&[b'b'; BLOCK_PLAINTEXT]);
    let size = write_range(&crypto, &key, &mut file, 0, 0, &payload).unwrap();

    let raw = file.clone();
    let record = NONCE_LEN + BLOCK_PLAINTEXT + 16;
    let mut swapped = raw.clone();
    let (first, second) = raw.split_at(record);
    swapped[..record].copy_from_slice(&second[..record]);
    swapped[record..record * 2].copy_from_slice(first);

    assert!(read_range(&crypto, &key, &swapped, size, 0, 16).is_err());
}

#[test]
fn growing_fills_with_zeros() {
    let (crypto, key) = setup();
    let mut file = Vec::new();
    let size = write_range(&crypto, &key, &mut file, 0, 0, b"abc").unwrap();
    let grown = BLOCK_PLAINTEXT as u64 * 2 + 1;
    truncate(&crypto, &key, &mut file, size, grown).unwrap();
    let read = read_range(&crypto, &key, &file, grown, 0, grown as usize).unwrap();
    assert_eq!(&read[..3], b"abc");
    assert!(read[3..].iter().all(|b| *b == 0));
    assert_eq!(file.len() as u64, 2 * FULL_RECORD + 41);
}

#[test]
fn sizes_beyond_what_can_be_stored_are_read_as_far_as_they_are_there() {
    let (crypto, key) = setup();
    let mut file = Vec::new();
    write_range(&crypto, &key, &mut file, 0, 0, &[7; BLOCK_PLAINTEXT]).unwrap();
    let before = file.clone();

    assert!(read_range(&crypto, &key, &file, u64::MAX, 0, 0).unwrap().is_empty());
    assert!(read_range(&crypto, &key, &file, u64::MAX, u64::MAX, 9).unwrap().is_empty());
    assert_eq!(read_range(&crypto, &key, &file, u64::MAX, 5, 3).unwrap(), [7; 3]);
    assert_eq!(
        read_range(&crypto, &key, &file, u64::MAX, u64::MAX - 1, 1),
        Err(BlockError::Missing((1 << 48) - 1))
    );

    assert_eq!(truncate(&crypto, &key, &mut file, u64::MAX, u64::MAX), Ok(()));
    assert_eq!(file, before);
    assert_eq!(
        truncate(&crypto, &key, &mut file, u64::MAX, u64::MAX - 1),
        Err(BlockError::Missing((1 << 48) - 1))
    );
    assert_eq!(truncate(&crypto, &key, &mut file, u64::MAX, 5), Ok(()));
    assert_eq!(read_range(&crypto, &key, &file, 5, 0, 9).unwrap(), [7; 5]);
    assert_eq!(truncate(&crypto, &key, &mut file, u64::MAX, 0), Ok(()));
    assert!(file.is_empty());
}

#[test]
fn layout_of_records() {
    assert_eq!(FULL_RECORD, 65576);
    assert_eq!(block_count(0), 0);
    assert_eq!(block_count(1), 1);
    assert_eq!(block_count(65536), 1);
    assert_eq!(block_count(65537), 2);
    assert_eq!(block_count(u64::MAX), 1 << 48);
    assert_eq!(plaintext_len(65537, 0), 65536);
    assert_eq!(plaintext_len(65537, 1), 1);
    assert_eq!(plaintext_len(65537, 2), 0);
    assert_eq!(record_len(65537, 1), 41);
    assert_eq!(record_offset(3), 196728);
}

#[test]
fn a_write_touches_only_the_blocks_it_needs() {
    let (crypto, key) = setup();
    let mut file = Vec::new();
    let payload = vec![b'a'; BLOCK_PLAINTEXT * 3];
    let size = write_range(&crypto, &key, &mut file, 0, 0, &payload).unwrap();
    let before = file.clone();
    let record = FULL_RECORD as usize;

    write_range(&crypto, &key, &mut file, size, BLOCK_PLAINTEXT as u64 + 3, b"mid").unwrap();
    assert_eq!(file.len(), before.len());
    assert_eq!(&file[..record], &before[..record]);
    assert_ne!(&file[record..2 * record], &before[record..2 * record]);
    assert_eq!(&file[2 * record..], &before[2 * record..]);

    let plan = write_plan(size, BLOCK_PLAINTEXT as u64 + 3, 3);
    assert_eq!((plan.from, plan.to, plan.new_size), (1, 2, size));
    let plan = write_plan(size, size + 1, 1);
    assert_eq!((plan.from, plan.to, plan.new_size), (2, 4, size + 2));
    let plan = write_plan(0, 0, 0);
    assert_eq!((plan.from, plan.to, plan.new_size), (0, 0, 0));
}

#[test]
fn an_empty_write_changes_nothing() {
    let (crypto, key) = setup();
    let mut file = Vec::new();
    assert_eq!(write_range(&crypto, &key, &mut file, 0, 0, &[]).unwrap(), 0);
    assert!(file.is_empty());
    let size = write_range(&crypto, &key, &mut file, 0, 0, b"abc").unwrap();
    let before = file.clone();
    assert_eq!(write_range(&crypto, &key, &mut file, size, 1, &[]).unwrap(), 3);
    assert_eq!(file, before);
    truncate(&crypto, &key, &mut file, 3, 3).unwrap();
    assert_eq!(file, before);
}

#[test]
fn damaged_files_are_reported() {
    let (crypto, key) = setup();
    let mut file = Vec::new();
    let size = write_range(&crypto, &key, &mut file, 0, 0, &vec![1u8; BLOCK_PLAINTEXT + 9]).unwrap();

    let short = &file[..file.len() - 1];
    assert_eq!(read_range(&crypto, &key, short, size, 0, 5).unwrap(), [1u8; 5]);
    assert_eq!(
        read_range(&crypto, &key, short, size, 0, size as usize),
        Err(BlockError::Missing(1))
    );
    assert_eq!(
        read_range(&crypto, &key, &[], size, 0, 5),
        Err(BlockError::Missing(0))
    );

    let mut broken = file.clone();
    broken[30] ^= 1;
    assert_eq!(
        read_range(&crypto, &key, &broken, size, 0, 5),
        Err(BlockError::Crypto(CryptoError::Decryption))
    );
    let kept = broken.clone();
    assert_eq!(
        write_range(&crypto, &key, &mut broken, size, 0, b"x"),
        Err(BlockError::Crypto(CryptoError::Decryption))
    );
    assert_eq!(broken, kept);
    assert_eq!(
        truncate(&crypto, &key, &mut broken, size, 4),
        Err(BlockError::Crypto(CryptoError::Decryption))
    );
    assert_eq!(broken, kept);

    assert_eq!(
        write_range(&crypto, &[0u8; 5], &mut Vec::new(), 0, 0, b"x"),
        Err(BlockError::Crypto(CryptoError::KeyLength))
    );
}

#[test]
fn stored_lengths_count_every_record() {
    assert_eq!(stored_length(0), Some(0));
    assert_eq!(stored_length(1), Some(41));
    assert_eq!(stored_length(65536), Some(65576));
    assert_eq!(stored_length(65537), Some(65617));
    assert_eq!(stored_length(u64::MAX), None);
}

#[test]
fn reads_are_planned() {
    assert_eq!(read_plan(10, 10, 1), None);
    assert_eq!(read_plan(10, 0, 0), None);
    assert_eq!(read_plan(10, 3, 100), Some(ReadPlan { first: 0, last: 0, end: 10 }));
    assert_eq!(
        read_plan(200_000, 65_535, 65_538),
        Some(ReadPlan { first: 0, last: 2, end: 131_073 })
    );
    assert_eq!(
        read_plan(u64::MAX, u64::MAX - 1, usize::MAX),
        Some(ReadPlan { first: (1 << 48) - 1, last: (1 << 48) - 1, end: u64::MAX })
    );
}

#[test]
fn resizes_are_planned() {
    assert_eq!(resize_plan(5, 5), ResizePlan::Keep);
    assert_eq!(resize_plan(0, 0), ResizePlan::Keep);
    assert_eq!(resize_plan(5, 6), ResizePlan::Grow);
    assert_eq!(resize_plan(5, 0), ResizePlan::Clear);
    assert_eq!(resize_plan(70_000, 100), ResizePlan::Cut { last: 0, target: 100 });
    assert_eq!(resize_plan(200_000, 131_072), ResizePlan::Cut { last: 1, target: 65_536 });
}
