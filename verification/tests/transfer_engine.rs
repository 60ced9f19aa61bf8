use fluxshare::crypto::{chunk_nonce, derive_key};
use fluxshare::hashing::{calculate_checksum, content_hash};
use fluxshare::manifest::{FileManifest, TransferManifest};
use fluxshare::progress::{TransferManager, TransferState, TransferStatus};
use fluxshare::transfer::{
    execute_transfer, process_chunk, transfer_file, ChunkOutcome, FileEntry, SendOptions,
};

fn entry_for(path: &str, size: u64) -> FileEntry {
    FileEntry {
        path: path.to_string(),
        name: path.to_string(),
        size,
        is_dir: false,
        checksum: None,
    }
}

fn run_whole_file(
    entry: &mut FileManifest,
    data: &Vec<u8>,
    chunk_size: u64,
) -> fluxshare::transfer::FileRunStats {
    let mut manager = TransferManager::new();
    transfer_file(
        entry,
        data,
        chunk_size,
        None,
        &mut manager,
        &"session".to_string(),
        &"f".to_string(),
        0,
    )
}

#[test]
fn chunk_and_resume() {
    let data = vec![1u8; 2 * 1024 * 1024];
    let file_entry = entry_for("tmp.bin", data.len() as u64);

    let mut manager = TransferManager::new();
    let session = "session".to_string();
    manager.set_status(
        session.clone(),
        TransferStatus::new(session.clone(), &vec![file_entry.clone()]),
    );

    let mut manifest = TransferManifest::new(session.clone(), false);
    execute_transfer(
        &mut manager,
        &mut manifest,
        &session,
        &vec![file_entry.clone()],
        &vec![data.clone()],
        &SendOptions { encrypt: false, password: None },
        1024 * 512,
        0,
    )
    .unwrap();

    let status = manager.get_status(&session).unwrap();
    assert_eq!(status.transferred_bytes, status.total_bytes);
    assert!(status.file_progress[0].done);
}

#[test]
fn rerun_is_all_reuse() {
    let data: Vec<u8> = (0..5000u32).map(|i| (i % 251) as u8).collect();
    let mut entry = FileManifest::new("a.bin".to_string(), data.len() as u64);

    let first = run_whole_file(&mut entry, &data, 1024);
    assert_eq!(first.chunk_count, 5);
    assert_eq!(first.written_chunks, 5);
    assert_eq!(first.reused_chunks, 0);
    let first_hash = entry.final_hash.clone().unwrap();

    let second = run_whole_file(&mut entry, &data, 1024);
    assert_eq!(second.chunk_count, 5);
    assert_eq!(second.written_chunks, 0);
    assert_eq!(second.reused_chunks, 5);
    let second_hash = entry.final_hash.clone().unwrap();
    assert_eq!(first_hash, second_hash);
}

#[test]
fn resume_finishes_remaining_chunks() {
    let data: Vec<u8> = (0..4096u32).map(|i| (i * 7 % 256) as u8).collect();
    let chunk = 1024u64;

    let mut scratch = FileManifest::new("b.bin".to_string(), data.len() as u64);
    run_whole_file(&mut scratch, &data, chunk);
    let scratch_hash = scratch.final_hash.clone().unwrap();

    let mut partial = FileManifest::new("b.bin".to_string(), data.len() as u64);
    for index in 0..2u64 {
        let window = data[(index as usize * 1024)..((index as usize + 1) * 1024)].to_vec();
        let outcome = process_chunk(&mut partial, index, &window, None);
        assert!(matches!(outcome, ChunkOutcome::Written));
    }
    assert_eq!(partial.reused_bytes(), 2048);

    let stats = run_whole_file(&mut partial, &data, chunk);
    assert_eq!(stats.chunk_count, 4);
    assert_eq!(stats.reused_chunks, 2);
    assert_eq!(stats.written_chunks, 2);
    assert_eq!(partial.final_hash.clone().unwrap(), scratch_hash);
}

#[test]
fn tampered_chunk_is_reprocessed() {
    let mut data: Vec<u8> = (0..3000u32).map(|i| (i % 17) as u8).collect();
    let mut entry = FileManifest::new("c.bin".to_string(), data.len() as u64);
    run_whole_file(&mut entry, &data, 1000);

    let old_hash_1 = entry.chunks.iter().find(|c| c.index == 1).unwrap().hash.clone();
    data[1500] ^= 0xff;
    let stats = run_whole_file(&mut entry, &data, 1000);
    assert_eq!(stats.chunk_count, 3);
    assert_eq!(stats.written_chunks, 1);
    assert_eq!(stats.reused_chunks, 2);
    let new_hash_1 = entry.chunks.iter().find(|c| c.index == 1).unwrap().hash.clone();
    assert_ne!(old_hash_1, new_hash_1);
}

#[test]
fn dedup_works_with_encryption() {
    let data = vec![9u8; 600];
    let key = derive_key("secret", "sess-enc").unwrap();
    assert_eq!(key.len(), 32);
    let same_key = derive_key("secret", "sess-enc").unwrap();
    assert_eq!(key, same_key);

    let mut entry = FileManifest::new("d.bin".to_string(), 600);
    let first = process_chunk(&mut entry, 0, &data, Some(&key));
    assert!(matches!(first, ChunkOutcome::Written));
    let second = process_chunk(&mut entry, 0, &data, Some(&key));
    assert!(matches!(second, ChunkOutcome::Reused));
}

#[test]
fn nonces_differ_per_chunk_index() {
    let n0 = chunk_nonce(0);
    let n1 = chunk_nonce(1);
    let n256 = chunk_nonce(256);
    assert_eq!(n0.len(), 12);
    assert_ne!(n0, n1);
    assert_ne!(n1, n256);
    assert_eq!(n1[7], 1);
    assert_eq!(n256[6], 1);
    assert_eq!(n256[7], 0);
    assert_eq!(&n0[8..], &[0u8, 0, 0, 0]);
}

#[test]
fn content_hash_matches_reference_hasher() {
    let empty: Vec<u8> = Vec::new();
    assert_eq!(content_hash(&empty), blake3::hash(b"").to_hex().to_string());
    let data = b"fluxshare chunk".to_vec();
    assert_eq!(content_hash(&data), blake3::hash(&data).to_hex().to_string());
    assert_eq!(calculate_checksum(&data), blake3::hash(&data).to_hex().to_string());
}

#[test]
fn encrypted_run_completes() {
    let data = vec![3u8; 2500];
    let files = vec![entry_for("enc.bin", 2500)];
    let session = "sess-2".to_string();
    let mut manager = TransferManager::new();
    manager.set_status(session.clone(), TransferStatus::new(session.clone(), &files));
    let mut manifest = TransferManifest::new(session.clone(), true);
    execute_transfer(
        &mut manager,
        &mut manifest,
        &session,
        &files,
        &vec![data],
        &SendOptions { encrypt: true, password: Some("pw".to_string()) },
        1000,
        0,
    )
    .unwrap();
    let status = manager.get_status(&session).unwrap();
    assert!(matches!(status.state, TransferState::Completed));
    assert_eq!(status.rate, 0);
    assert_eq!(status.eta_seconds, Some(0));
}

#[test]
fn directories_are_skipped() {
    let dir = FileEntry {
        path: "some-dir".to_string(),
        name: "some-dir".to_string(),
        size: 0,
        is_dir: true,
        checksum: None,
    };
    let session = "sess-3".to_string();
    let mut manager = TransferManager::new();
    manager.set_status(session.clone(), TransferStatus::new(session.clone(), &vec![dir.clone()]));
    let mut manifest = TransferManifest::new(session.clone(), false);
    execute_transfer(
        &mut manager,
        &mut manifest,
        &session,
        &vec![dir],
        &vec![Vec::new()],
        &SendOptions { encrypt: false, password: None },
        1024,
        0,
    )
    .unwrap();
    assert_eq!(manifest.files.len(), 0);
    let status = manager.get_status(&session).unwrap();
    assert!(matches!(status.state, TransferState::Completed));
    assert!(!status.file_progress[0].done);
}

#[test]
fn orchestrated_rerun_reports_zero_fresh_work() {
    let data = vec![7u8; 4096];
    let files = vec![entry_for("o.bin", 4096)];
    let session = "sess-4".to_string();
    let options = SendOptions { encrypt: false, password: None };

    let mut manager = TransferManager::new();
    manager.set_status(session.clone(), TransferStatus::new(session.clone(), &files));
    let mut manifest = TransferManifest::new(session.clone(), false);

    let first = execute_transfer(
        &mut manager,
        &mut manifest,
        &session,
        &files,
        &vec![data.clone()],
        &options,
        1024,
        0,
    )
    .unwrap();
    assert_eq!(first.len(), 1);
    assert_eq!(first[0].chunk_count, 4);
    assert_eq!(first[0].written_chunks, 4);

    manager.set_status(session.clone(), TransferStatus::new(session.clone(), &files));
    let second = execute_transfer(
        &mut manager,
        &mut manifest,
        &session,
        &files,
        &vec![data],
        &options,
        1024,
        0,
    )
    .unwrap();
    assert_eq!(second[0].written_chunks, 0);
    assert_eq!(second[0].reused_chunks, 4);
    let status = manager.get_status(&session).unwrap();
    assert!(status.file_progress[0].done);
    assert_eq!(status.transferred_bytes, status.total_bytes);
}
