use fluxshare::encoding::{hex_encode, parse_decimal_u64, u64_be_bytes, u64_to_decimal};
use fluxshare::errors::TransferError;
use fluxshare::manifest::{ChunkInfo, FileManifest, TransferManifest};
use fluxshare::progress::{compute_rate, TransferManager, TransferState, TransferStatus};
use fluxshare::settings::Settings;
use fluxshare::transfer::FileEntry;

fn two_files() -> Vec<FileEntry> {
    vec![
        FileEntry {
            path: "one".to_string(),
            name: "one".to_string(),
            size: 10,
            is_dir: false,
            checksum: None,
        },
        FileEntry {
            path: "two".to_string(),
            name: "two".to_string(),
            size: 30,
            is_dir: false,
            checksum: None,
        },
    ]
}

#[test]
fn fresh_status_is_pending_and_zeroed() {
    let st = TransferStatus::new("s1".to_string(), &two_files());
    assert_eq!(st.total_bytes, 40);
    assert_eq!(st.transferred_bytes, 0);
    assert_eq!(st.rate, 0);
    assert!(st.eta_seconds.is_none());
    assert!(matches!(st.state, TransferState::Pending));
    assert_eq!(st.file_progress.len(), 2);
    assert_eq!(st.file_progress[1].total, 30);
    assert!(!st.file_progress[0].done);
}

#[test]
fn registry_overwrites_and_reads_back() {
    let mut manager = TransferManager::new();
    let sid = "s2".to_string();
    manager.set_status(sid.clone(), TransferStatus::new(sid.clone(), &two_files()));
    manager.set_status(sid.clone(), TransferStatus::new(sid.clone(), &two_files()));
    assert!(manager.get_status(&sid).is_some());
    assert!(manager.get_status(&"missing".to_string()).is_none());
}

#[test]
fn progress_is_monotone_and_clamped() {
    let mut manager = TransferManager::new();
    let sid = "s3".to_string();
    let path = "one".to_string();
    manager.set_status(sid.clone(), TransferStatus::new(sid.clone(), &two_files()));

    manager.update_progress(&sid, &path, 7, 1000);
    let after_one = manager.get_status(&sid).unwrap().file_progress[0].transferred;
    assert_eq!(after_one, 7);

    manager.update_progress(&sid, &path, 7, 2000);
    let st = manager.get_status(&sid).unwrap();
    assert_eq!(st.file_progress[0].transferred, 10);
    assert!(st.file_progress[0].transferred >= after_one);
    assert_eq!(st.transferred_bytes, 10);
}

#[test]
fn session_counter_equals_per_file_sum() {
    let mut manager = TransferManager::new();
    let sid = "s4".to_string();
    manager.set_status(sid.clone(), TransferStatus::new(sid.clone(), &two_files()));
    let chunks: [(&str, u64); 4] = [("one", 4), ("one", 6), ("two", 15), ("two", 15)];
    for (path, bytes) in chunks {
        manager.update_progress(&sid, &path.to_string(), bytes, 0);
        let st = manager.get_status(&sid).unwrap();
        let sum: u64 = st.file_progress.iter().map(|p| p.transferred).sum();
        assert_eq!(st.transferred_bytes, sum);
    }
}

#[test]
fn resume_reports_preexisting_bytes() {
    let mut manager = TransferManager::new();
    let sid = "s5".to_string();
    manager.set_status(sid.clone(), TransferStatus::new(sid.clone(), &two_files()));
    manager.begin_resume(&sid, &"two".to_string(), 99);
    let st = manager.get_status(&sid).unwrap();
    assert!(matches!(st.state, TransferState::Resuming));
    assert_eq!(st.file_progress[1].transferred, 30);
    assert_eq!(st.transferred_bytes, 30);

    manager.begin_resume(&sid, &"one".to_string(), 4);
    let st = manager.get_status(&sid).unwrap();
    assert_eq!(st.file_progress[0].transferred, 4);
    assert_eq!(st.transferred_bytes, 34);
    let sum: u64 = st.file_progress.iter().map(|p| p.transferred).sum();
    assert_eq!(st.transferred_bytes, sum);
}

#[test]
fn tick_updates_rate_and_eta() {
    let mut manager = TransferManager::new();
    let sid = "s6".to_string();
    manager.set_status(sid.clone(), TransferStatus::new(sid.clone(), &two_files()));
    manager.update_progress(&sid, &"one".to_string(), 10, 0);
    manager.update_rate_eta(&sid, 10, 2000);
    let st = manager.get_status(&sid).unwrap();
    assert_eq!(st.rate, 5);
    assert_eq!(st.eta_seconds, Some(30 / 5));

    manager.update_rate_eta(&sid, 0, 1000);
    let st = manager.get_status(&sid).unwrap();
    assert_eq!(st.rate, 0);
    assert_eq!(st.eta_seconds, Some(30));
}

#[test]
fn completion_pins_counters() {
    let mut manager = TransferManager::new();
    let sid = "s7".to_string();
    manager.set_status(sid.clone(), TransferStatus::new(sid.clone(), &two_files()));
    manager.complete(&sid);
    let st = manager.get_status(&sid).unwrap();
    assert!(matches!(st.state, TransferState::Completed));
    assert_eq!(st.transferred_bytes, 40);
    assert_eq!(st.rate, 0);
    assert_eq!(st.eta_seconds, Some(0));
}

#[test]
fn rate_is_bytes_per_second() {
    assert_eq!(compute_rate(1000, 1000), 1000);
    assert_eq!(compute_rate(1000, 2000), 500);
    assert_eq!(compute_rate(1000, 0), 1_000_000);
    assert_eq!(compute_rate(0, 5000), 0);
    assert_eq!(compute_rate(u64::MAX, 1), u64::MAX);
}

#[test]
fn manifest_replaces_chunk_at_index() {
    let mut entry = FileManifest::new("m".to_string(), 100);
    entry.set_chunk(ChunkInfo { index: 0, hash: "aa".to_string(), size: 50 });
    entry.set_chunk(ChunkInfo { index: 1, hash: "bb".to_string(), size: 50 });
    entry.set_chunk(ChunkInfo { index: 0, hash: "cc".to_string(), size: 40 });
    assert_eq!(entry.chunks.len(), 2);
    let c0 = entry.chunks.iter().find(|c| c.index == 0).unwrap();
    assert_eq!(c0.hash, "cc");
    assert_eq!(c0.size, 40);
    assert_eq!(entry.reused_bytes(), 90);
    assert!(entry.chunk_matches(1, &"bb".to_string(), 50));
    assert!(!entry.chunk_matches(1, &"bb".to_string(), 49));
    assert!(!entry.chunk_matches(2, &"bb".to_string(), 50));
}

#[test]
fn document_keeps_one_entry_per_path() {
    let mut doc = TransferManifest::new("sess".to_string(), false);
    let p = "x".to_string();
    let first = doc.ensure_file(&p, 10);
    let second = doc.ensure_file(&p, 99);
    assert_eq!(first, second);
    assert_eq!(doc.files.len(), 1);
    assert_eq!(doc.files[0].size, 10);
    assert!(doc.find_file(&"y".to_string()).is_none());
}

#[test]
fn decimal_rendering_and_parsing() {
    assert_eq!(u64_to_decimal(0), "0");
    assert_eq!(u64_to_decimal(907), "907");
    assert_eq!(u64_to_decimal(u64::MAX), "18446744073709551615");
    assert_eq!(parse_decimal_u64("0"), Some(0));
    assert_eq!(parse_decimal_u64("+42"), Some(42));
    assert_eq!(parse_decimal_u64("18446744073709551615"), Some(u64::MAX));
    assert_eq!(parse_decimal_u64("18446744073709551616"), None);
    assert_eq!(parse_decimal_u64(""), None);
    assert_eq!(parse_decimal_u64("+"), None);
    assert_eq!(parse_decimal_u64("1x"), None);
    assert_eq!(parse_decimal_u64("-1"), None);
    assert_eq!(parse_decimal_u64("007"), Some(7));
}

#[test]
fn hex_and_big_endian_layout() {
    assert_eq!(hex_encode(&vec![]), "");
    assert_eq!(hex_encode(&vec![0xde, 0xad, 0x0f]), "dead0f");
    assert_eq!(
        u64_be_bytes(0x0102030405060708),
        vec![1u8, 2, 3, 4, 5, 6, 7, 8]
    );
    assert_eq!(u64_be_bytes(1), vec![0u8, 0, 0, 0, 0, 0, 0, 1]);
}

#[test]
fn default_settings_match_first_run() {
    let s = Settings::default();
    assert_eq!(s.chunk_size, 1024 * 1024);
    assert_eq!(s.parallel_chunks, 4);
    assert_eq!(s.ice_timeout_ms, 30_000);
    assert_eq!(s.cloudflared_path, "cloudflared");
}

#[test]
fn error_labels_are_stable() {
    assert_eq!(TransferError::Malformed.label(), "malformed document");
    assert_eq!(TransferError::ProtocolViolation.label(), "protocol violation");
    assert_eq!(TransferError::Timeout.label(), "timeout");
}
