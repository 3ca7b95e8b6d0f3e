use std::sync::mpsc;

use chunk_store::chunk_processor::{migrate_chunk, ChunkProcessor, Message};
use chunk_store::compression::NoCompression;
use chunk_store::encryption::{NoEncryption, XorKeystream};
use chunk_store::encryption::Encrypter;
use chunk_store::hashing::{Fnv64Hasher, Hasher};
use chunk_store::store::{Store, StoreError};
use chunk_store::types::{DataType, Digest, Generation, ProcessError};
use sgdata::SGData;

fn digest_of(bytes: &[u8]) -> Digest {
    Fnv64Hasher.calculate_digest(&bytes.to_vec())
}

fn xor_mask(bytes: &[u8], key: Digest) -> Vec<u8> {
    bytes
        .iter()
        .enumerate()
        .map(|(i, b)| b ^ ((key.0 >> ((i % 8) * 8)) & 0xff) as u8)
        .collect()
}

#[test]
fn fnv_known_vectors() {
    // Published FNV-1a 64-bit test vectors.
    assert_eq!(digest_of(b"").0, 0xcbf29ce484222325);
    assert_eq!(digest_of(b"a").0, 0xaf63dc4c8601ec8c);
    // Determinism: byte-identical payloads hash alike.
    assert_eq!(digest_of(b"some chunk"), digest_of(b"some chunk"));
}

#[test]
fn data_type_policies() {
    assert!(DataType::Data.should_compress());
    assert!(DataType::Data.should_encrypt());
    assert!(!DataType::Index.should_compress());
    assert!(!DataType::Index.should_encrypt());
}

#[test]
fn xor_keystream_exact() {
    let key = Digest(0x0102030405060708);
    let out = XorKeystream.encrypt(vec![0x00, 0x00, 0xff], key).unwrap();
    // Keystream is the digest's little-endian bytes: 08 07 06 ...
    assert_eq!(out, vec![0x08, 0x07, 0xf9]);
}

/// Scenario: single generation, a new chunk that is both compressed and
/// encrypted. Absent before, present at (digest, v1) after; the response
/// carries the independently computed digest of the raw payload.
#[test]
fn scenario_single_generation_new_chunk() {
    let v1 = Generation(1);
    let payload: Vec<u8> = (0u8..100).collect();
    let d = digest_of(&payload);

    let (work_tx, work_rx) = two_lock_queue::channel(16);
    let (resp_tx, resp_rx) = mpsc::channel();
    let processor = ChunkProcessor::new(work_rx, XorKeystream, NoCompression, Fnv64Hasher, vec![v1]);

    let mut store = Store::new();
    assert!(!store.has_chunk(v1, d));

    work_tx
        .send(Message {
            data: (7, SGData::from_single(payload.clone())),
            data_type: DataType::Data,
            response_tx: resp_tx,
        })
        .unwrap();
    drop(work_tx);

    assert_eq!(processor.run_once(&mut store), Ok(true));
    // Queue closed and drained: clean shutdown.
    assert_eq!(processor.run_once(&mut store), Ok(false));

    assert_eq!(resp_rx.recv().unwrap(), (7, d));
    assert!(store.has_chunk(v1, d));
    assert_eq!(store.chunk_count(), 1);
    // Stored bytes are the transformed payload, keyed by the digest.
    assert_eq!(store.get_content(v1, d).unwrap(), xor_mask(&payload, d));
}

/// Scenario: the chunk already sits in the older of two generations; a
/// duplicate submission migrates it forward and answers with the same digest.
#[test]
fn scenario_migrates_from_older_generation() {
    let (v1, v2) = (Generation(1), Generation(2));
    let payload = b"already stored once".to_vec();
    let d = digest_of(&payload);

    let mut store = Store::new();
    // The chunk went in, transformed, back when v1 was current.
    store.write_idempotent(v1, d, xor_mask(&payload, d));

    let (work_tx, work_rx) = two_lock_queue::channel(16);
    let (resp_tx, resp_rx) = mpsc::channel();
    let processor =
        ChunkProcessor::new(work_rx, XorKeystream, NoCompression, Fnv64Hasher, vec![v1, v2]);

    work_tx
        .send(Message {
            data: (41, SGData::from_single(payload.clone())),
            data_type: DataType::Data,
            response_tx: resp_tx,
        })
        .unwrap();

    assert_eq!(processor.run_once(&mut store), Ok(true));
    assert_eq!(resp_rx.recv().unwrap(), (41, d));
    assert!(store.has_chunk(v2, d));
    assert!(!store.has_chunk(v1, d));
    assert_eq!(store.chunk_count(), 1);
    // The bytes moved unchanged.
    assert_eq!(store.get_content(v2, d).unwrap(), xor_mask(&payload, d));
}

/// Scenario: two workers race to migrate the same chunk. One rename wins; the
/// loser's rename fails, but its destination re-check finds the chunk, so both
/// complete without error and exactly one chunk remains, at v2.
#[test]
fn scenario_migration_race_recovered() {
    let (v1, v2) = (Generation(1), Generation(2));
    let d = Digest(0xdead);
    let mut store = Store::new();
    store.write_idempotent(v1, d, b"chunk".to_vec());

    // Worker A wins the rename.
    assert_eq!(migrate_chunk(&mut store, v1, v2, d), Ok(()));
    // Worker B scanned before A moved the chunk, so it also tries: its rename
    // fails (source gone) and the destination re-check resolves the race.
    assert_eq!(migrate_chunk(&mut store, v1, v2, d), Ok(()));

    assert!(store.has_chunk(v2, d));
    assert!(!store.has_chunk(v1, d));
    assert_eq!(store.chunk_count(), 1);
    assert_eq!(store.get_content(v2, d).unwrap(), b"chunk".to_vec());
}

/// A rename that fails with the destination still absent is a storage fault.
#[test]
fn migration_with_destination_absent_is_fatal() {
    let (v1, v2) = (Generation(1), Generation(2));
    let mut store = Store::new();
    assert_eq!(
        migrate_chunk(&mut store, v1, v2, Digest(5)),
        Err(ProcessError::StorageFault)
    );
    assert_eq!(store.chunk_count(), 0);
}

#[test]
fn rename_missing_source_reports_error() {
    let mut store = Store::new();
    assert_eq!(
        store.rename(Generation(1), Digest(9), Generation(2)),
        Err(StoreError::SourceMissing)
    );
}

/// Dedup correctness: byte-identical payloads, submitted twice, yield one
/// physical chunk and the same digest in both responses.
#[test]
fn dedup_two_identical_payloads() {
    let v1 = Generation(1);
    let payload = b"same bytes twice".to_vec();

    let (work_tx, work_rx) = two_lock_queue::channel(16);
    let (resp_tx, resp_rx) = mpsc::channel();
    let processor =
        ChunkProcessor::new(work_rx, NoEncryption, NoCompression, Fnv64Hasher, vec![v1]);

    for id in [1u64, 2u64] {
        work_tx
            .send(Message {
                data: (id, SGData::from_single(payload.clone())),
                data_type: DataType::Data,
                response_tx: resp_tx.clone(),
            })
            .unwrap();
    }
    drop(resp_tx);

    let mut store = Store::new();
    assert_eq!(processor.run_once(&mut store), Ok(true));
    assert_eq!(processor.run_once(&mut store), Ok(true));

    let (id_a, d_a) = resp_rx.recv().unwrap();
    let (id_b, d_b) = resp_rx.recv().unwrap();
    assert_eq!(d_a, d_b);
    assert_eq!(d_a, digest_of(&payload));
    assert_eq!((id_a, id_b), (1, 2));
    assert_eq!(store.chunk_count(), 1);
    assert!(store.has_chunk(v1, d_a));
}

/// Idempotent write: the same (key, content) written twice leaves the store
/// exactly as one write does, and neither write errors.
#[test]
fn write_idempotent_twice_equals_once() {
    let v1 = Generation(1);
    let d = Digest(77);
    let mut once = Store::new();
    once.write_idempotent(v1, d, b"payload".to_vec());
    let mut twice = Store::new();
    twice.write_idempotent(v1, d, b"payload".to_vec());
    twice.write_idempotent(v1, d, b"payload".to_vec());
    assert_eq!(once, twice);
    assert_eq!(twice.chunk_count(), 1);
    assert_eq!(twice.get_content(v1, d).unwrap(), b"payload".to_vec());
}

/// Unrelated chunks may complete in either order: the store ends up the same,
/// so no test (and no caller) may read completion order as submission order.
#[test]
fn unrelated_chunks_commute() {
    let v1 = Generation(1);
    let pay_a = b"first chunk".to_vec();
    let pay_b = b"second chunk".to_vec();
    let (d_a, d_b) = (digest_of(&pay_a), digest_of(&pay_b));
    assert_ne!(d_a, d_b);

    let run = |first: &Vec<u8>, second: &Vec<u8>| -> Store {
        let (_work_tx, work_rx) = two_lock_queue::channel::<Message>(1);
        let processor =
            ChunkProcessor::new(work_rx, XorKeystream, NoCompression, Fnv64Hasher, vec![v1]);
        let mut store = Store::new();
        processor
            .process_one(&mut store, 1, first.clone(), DataType::Data)
            .unwrap();
        processor
            .process_one(&mut store, 2, second.clone(), DataType::Data)
            .unwrap();
        store
    };

    let ab = run(&pay_a, &pay_b);
    let ba = run(&pay_b, &pay_a);
    assert_eq!(ab.chunk_count(), 2);
    assert_eq!(ba.chunk_count(), 2);
    for d in [d_a, d_b] {
        assert!(ab.has_chunk(v1, d) && ba.has_chunk(v1, d));
        assert_eq!(ab.get_content(v1, d), ba.get_content(v1, d));
    }
}

/// Index chunks are stored as handed in: no compression, no encryption.
#[test]
fn index_chunks_stored_raw() {
    let v1 = Generation(1);
    let payload = b"an index blob".to_vec();
    let d = digest_of(&payload);

    let (_work_tx, work_rx) = two_lock_queue::channel::<Message>(1);
    let processor =
        ChunkProcessor::new(work_rx, XorKeystream, NoCompression, Fnv64Hasher, vec![v1]);
    let mut store = Store::new();
    assert_eq!(
        processor.process_one(&mut store, 3, payload.clone(), DataType::Index),
        Ok((3, d))
    );
    assert_eq!(store.get_content(v1, d).unwrap(), payload);
}

/// A duplicate already in the current generation: nothing is rewritten, the
/// stored bytes stay exactly as they were.
#[test]
fn duplicate_in_current_generation_untouched() {
    let v1 = Generation(1);
    let payload = b"dup in current".to_vec();
    let d = digest_of(&payload);

    let (_work_tx, work_rx) = two_lock_queue::channel::<Message>(1);
    let processor =
        ChunkProcessor::new(work_rx, NoEncryption, NoCompression, Fnv64Hasher, vec![v1]);
    let mut store = Store::new();
    store.write_idempotent(v1, d, payload.clone());
    let before = store.clone();
    assert_eq!(
        processor.process_one(&mut store, 9, payload.clone(), DataType::Data),
        Ok((9, d))
    );
    assert_eq!(store, before);
}

/// A closed response channel is fatal for the in-flight request.
#[test]
fn closed_response_channel_is_fatal() {
    let v1 = Generation(1);
    let (work_tx, work_rx) = two_lock_queue::channel(4);
    let (resp_tx, resp_rx) = mpsc::channel::<(u64, Digest)>();
    drop(resp_rx);
    let processor =
        ChunkProcessor::new(work_rx, NoEncryption, NoCompression, Fnv64Hasher, vec![v1]);
    work_tx
        .send(Message {
            data: (11, SGData::from_single(b"orphan".to_vec())),
            data_type: DataType::Data,
            response_tx: resp_tx,
        })
        .unwrap();
    let mut store = Store::new();
    assert_eq!(
        processor.run_once(&mut store),
        Err(ProcessError::ResponseChannelClosed)
    );
    // The chunk itself was processed before the send failed.
    assert!(store.has_chunk(v1, digest_of(b"orphan")));
}

/// Scatter-gather payloads hash and store by their logical byte stream, not
/// by their segmentation.
#[test]
fn scattered_payload_equals_contiguous() {
    let v1 = Generation(1);
    let whole = b"split across parts".to_vec();
    let d = digest_of(&whole);

    let (work_tx, work_rx) = two_lock_queue::channel(4);
    let (resp_tx, resp_rx) = mpsc::channel();
    let processor =
        ChunkProcessor::new(work_rx, NoEncryption, NoCompression, Fnv64Hasher, vec![v1]);
    work_tx
        .send(Message {
            data: (
                21,
                SGData::from_many(vec![b"split ".to_vec(), b"across".to_vec(), b" parts".to_vec()]),
            ),
            data_type: DataType::Data,
            response_tx: resp_tx,
        })
        .unwrap();
    let mut store = Store::new();
    assert_eq!(processor.run_once(&mut store), Ok(true));
    assert_eq!(resp_rx.recv().unwrap(), (21, d));
    assert_eq!(store.get_content(v1, d).unwrap(), whole);
}

/// The scan probes newest first: a copy already in the current generation
/// wins, and no migration touches an older duplicate.
#[test]
fn scan_prefers_current_generation() {
    let (v1, v2) = (Generation(1), Generation(2));
    let payload = b"in both generations".to_vec();
    let d = digest_of(&payload);

    let (_work_tx, work_rx) = two_lock_queue::channel::<Message>(1);
    let processor =
        ChunkProcessor::new(work_rx, NoEncryption, NoCompression, Fnv64Hasher, vec![v1, v2]);
    let mut store = Store::new();
    store.write_idempotent(v1, d, b"old copy".to_vec());
    store.write_idempotent(v2, d, payload.clone());

    assert_eq!(
        processor.process_one(&mut store, 5, payload.clone(), DataType::Data),
        Ok((5, d))
    );
    // Found in the current generation: nothing moved, nothing rewritten.
    assert_eq!(store.get_content(v1, d).unwrap(), b"old copy".to_vec());
    assert_eq!(store.get_content(v2, d).unwrap(), payload);
    assert_eq!(store.chunk_count(), 2);
}

/// With copies in several older generations, the newest one is the copy that
/// migrates.
#[test]
fn migration_takes_newest_copy() {
    let (v1, v2, v3) = (Generation(1), Generation(2), Generation(3));
    let payload = b"scan order matters".to_vec();
    let d = digest_of(&payload);

    let (_work_tx, work_rx) = two_lock_queue::channel::<Message>(1);
    let processor =
        ChunkProcessor::new(work_rx, NoEncryption, NoCompression, Fnv64Hasher, vec![v1, v2, v3]);
    let mut store = Store::new();
    store.write_idempotent(v1, d, b"oldest copy".to_vec());
    store.write_idempotent(v2, d, b"newer copy".to_vec());

    assert_eq!(
        processor.process_one(&mut store, 6, payload, DataType::Data),
        Ok((6, d))
    );
    assert_eq!(store.get_content(v3, d).unwrap(), b"newer copy".to_vec());
    assert!(!store.has_chunk(v2, d));
    // The scan stopped at the newest hit; the oldest copy is out of its reach.
    assert_eq!(store.get_content(v1, d).unwrap(), b"oldest copy".to_vec());
}
