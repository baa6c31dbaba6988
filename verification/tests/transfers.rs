use matrix_fileshare::codec::{sha256_hex_string, to_hex_lower};
use matrix_fileshare::events::FileChunkContent;
use matrix_fileshare::state::{ActiveTransfers, FileOfferData, PendingOffer, PendingOffers};
use matrix_fileshare::transfer::{
    build_chunk, cancel_transfer, chunk_bounds, chunk_count, forget_all, handle_incoming_chunk,
    pending_offer, record_offer, sending_progress, start_receiving, verify_download, ChunkOutcome,
    after_direct_attempt, DownloadStep,
    CHUNK_SIZE, HASH_MISMATCH_MESSAGE,
};

fn sample_file(len: usize) -> Vec<u8> {
    (0..len).map(|i| ((i * 31 + 7) % 251) as u8).collect()
}

fn offer_for(data: &[u8], offer_id: &str) -> FileOfferData {
    FileOfferData {
        offer_id: offer_id.to_string(),
        filename: "report.bin".to_string(),
        size: data.len() as u64,
        mimetype: "application/octet-stream".to_string(),
        sha256: sha256_hex_string(data),
        description: None,
        sender_user_id: "@alice:example.org".to_string(),
        sender_device_id: Some("DEVICEA".to_string()),
        room_id: "!room:example.org".to_string(),
        iroh_ticket: None,
    }
}

#[test]
fn sha256_of_abc() {
    assert_eq!(
        sha256_hex_string(b"abc"),
        "ba7816bf8f01cfea414140de5dae2223b00361a396177a9cb410ff61f20015ad"
    );
    assert_eq!(
        sha256_hex_string(b""),
        "e3b0c44298fc1c149afbf4c8996fb92427ae41e4649b934ca495991b7852b855"
    );
}

#[test]
fn hex_is_lowercase_two_digits_per_byte() {
    assert_eq!(to_hex_lower(&[0x00, 0x0f, 0xa0, 0xff]), "000fa0ff");
}

#[test]
fn chunk_count_rounds_up() {
    assert_eq!(CHUNK_SIZE, 49152);
    assert_eq!(chunk_count(0), 0);
    assert_eq!(chunk_count(1), 1);
    assert_eq!(chunk_count(49152), 1);
    assert_eq!(chunk_count(49153), 2);
    assert_eq!(chunk_count(3 * 49152), 3);
}

#[test]
fn chunk_bounds_cover_the_file() {
    assert_eq!(chunk_bounds(0, 100_000), (0, 49152));
    assert_eq!(chunk_bounds(1, 100_000), (49152, 98304));
    assert_eq!(chunk_bounds(2, 100_000), (98304, 100_000));
}

#[test]
fn build_chunk_encodes_base64() {
    let chunk = build_chunk("offer-1", b"hello world~", 0, 1);
    assert_eq!(chunk.offer_id, "offer-1");
    assert_eq!(chunk.chunk_index, 0);
    assert_eq!(chunk.total_chunks, 1);
    assert_eq!(chunk.data, "aGVsbG8gd29ybGR+");
    let short = build_chunk("o", b"ab", 0, 1);
    assert_eq!(short.data, "YWI=");
    let one = build_chunk("o", b"a", 0, 1);
    assert_eq!(one.data, "YQ==");
}

#[test]
fn sending_progress_is_capped() {
    let p = sending_progress("o", 70_000, 60_000);
    assert_eq!(p.bytes_transferred, 60_000);
    assert_eq!(p.total_bytes, 60_000);
    assert_eq!(p.status, "sending");
    let q = sending_progress("o", 10, 60_000);
    assert_eq!(q.bytes_transferred, 10);
}

#[test]
fn start_receiving_prepares_transfer() {
    let data = sample_file(100_000);
    let offer = offer_for(&data, "offer-7");
    let mut active = ActiveTransfers::new();
    assert!(start_receiving(&mut active, &offer, "/tmp/downloads", '/').is_ok());
    let t = active.get("offer-7").expect("transfer present");
    assert_eq!(t.total_chunks, 3);
    assert_eq!(t.total_size, 100_000);
    assert_eq!(t.save_path, "/tmp/downloads/report.bin");
    assert!(t.chunks_received.is_empty());
    assert!(t.data.is_empty());
}

#[test]
fn chunks_in_any_order_with_duplicates_reassemble() {
    let data = sample_file(3 * 49152 + 1000);
    let offer = offer_for(&data, "offer-9");
    let mut active = ActiveTransfers::new();
    start_receiving(&mut active, &offer, "out", '/').unwrap();
    let total = chunk_count(data.len());
    assert_eq!(total, 4);
    let order = [2u32, 0, 2, 3, 0, 1];
    let mut completed = None;
    for (step, &i) in order.iter().enumerate() {
        let chunk = build_chunk("offer-9", &data, i, total);
        match handle_incoming_chunk(&mut active, chunk).unwrap() {
            ChunkOutcome::Stored(p) => {
                assert!(step < 5);
                assert_eq!(p.status, "receiving");
                assert_eq!(p.total_bytes, data.len() as u64);
                assert!(p.bytes_transferred <= data.len() as u64);
            }
            ChunkOutcome::Duplicate => assert!(step == 2 || step == 4),
            ChunkOutcome::Completed(c) => {
                assert_eq!(step, 5);
                completed = Some(c);
            }
            ChunkOutcome::HashMismatch(_) => panic!("hash should match"),
        }
    }
    let c = completed.expect("transfer completes");
    assert_eq!(c.data, data);
    assert_eq!(c.offer_id, "offer-9");
    assert_eq!(c.save_path, "out/report.bin");
    assert_eq!(c.progress.bytes_transferred, data.len() as u64);
    assert!(!active.contains_key("offer-9"));
}

#[test]
fn progress_counts_whole_chunks() {
    let data = sample_file(2 * 49152 + 10);
    let offer = offer_for(&data, "p");
    let mut active = ActiveTransfers::new();
    start_receiving(&mut active, &offer, "d", '/').unwrap();
    match handle_incoming_chunk(&mut active, build_chunk("p", &data, 2, 3)).unwrap() {
        ChunkOutcome::Stored(p) => assert_eq!(p.bytes_transferred, 49152),
        _ => panic!("stored expected"),
    }
    match handle_incoming_chunk(&mut active, build_chunk("p", &data, 0, 3)).unwrap() {
        ChunkOutcome::Stored(p) => assert_eq!(p.bytes_transferred, 98304),
        _ => panic!("stored expected"),
    }
    let t = active.get("p").unwrap();
    assert_eq!(t.data.len(), data.len());
    assert_eq!(&t.data[2 * 49152..], &data[2 * 49152..]);
    assert!(t.data[49152..2 * 49152].iter().all(|&b| b == 0));
}

#[test]
fn unknown_transfer_is_refused() {
    let mut active = ActiveTransfers::new();
    let chunk = FileChunkContent {
        offer_id: "missing".to_string(),
        chunk_index: 0,
        total_chunks: 1,
        data: "YQ==".to_string(),
    };
    match handle_incoming_chunk(&mut active, chunk) {
        Err(e) => assert_eq!(e, "No active transfer for: missing"),
        Ok(_) => panic!("should fail"),
    }
}

#[test]
fn bad_base64_is_refused_and_changes_nothing() {
    let data = sample_file(10);
    let offer = offer_for(&data, "b");
    let mut active = ActiveTransfers::new();
    start_receiving(&mut active, &offer, "d", '/').unwrap();
    let chunk = FileChunkContent {
        offer_id: "b".to_string(),
        chunk_index: 0,
        total_chunks: 1,
        data: "a*==".to_string(),
    };
    match handle_incoming_chunk(&mut active, chunk) {
        Err(e) => assert_eq!(e, "Base64 decode error: Invalid symbol 42, offset 1."),
        Ok(_) => panic!("should fail"),
    }
    let bad_len = FileChunkContent {
        offer_id: "b".to_string(),
        chunk_index: 0,
        total_chunks: 1,
        data: "YWJjZ".to_string(),
    };
    match handle_incoming_chunk(&mut active, bad_len) {
        Err(e) => assert!(e.starts_with("Base64 decode error: "), "{}", e),
        Ok(_) => panic!("should fail"),
    }
    let t = active.get("b").unwrap();
    assert!(t.chunks_received.is_empty());
    assert!(t.data.is_empty());
}

#[test]
fn wrong_digest_drops_the_transfer() {
    let data = sample_file(1000);
    let mut offer = offer_for(&data, "h");
    offer.sha256 = "0000".to_string();
    let mut active = ActiveTransfers::new();
    start_receiving(&mut active, &offer, "d", '/').unwrap();
    match handle_incoming_chunk(&mut active, build_chunk("h", &data, 0, 1)).unwrap() {
        ChunkOutcome::HashMismatch(p) => assert_eq!(p.bytes_transferred, 1000),
        _ => panic!("mismatch expected"),
    }
    assert!(!active.contains_key("h"));
}

#[test]
fn pending_offers_are_served_and_cancelled() {
    let mut pending = PendingOffers::new();
    let mut active = ActiveTransfers::new();
    match pending_offer(&pending, "x") {
        Err(e) => assert_eq!(e, "No pending offer: x"),
        Ok(_) => panic!("nothing pending"),
    }
    record_offer(
        &mut pending,
        PendingOffer {
            offer_id: "x".to_string(),
            file_path: "/f".to_string(),
            room_id: "!r:s".to_string(),
            sha256: "ab".to_string(),
            size: 2,
        },
    );
    assert_eq!(pending_offer(&pending, "x").unwrap().file_path, "/f");
    let data = sample_file(5);
    start_receiving(&mut active, &offer_for(&data, "x"), "d", '/').unwrap();
    start_receiving(&mut active, &offer_for(&data, "y"), "d", '/').unwrap();
    cancel_transfer(&mut active, &mut pending, "x");
    assert!(!active.contains_key("x"));
    assert!(active.contains_key("y"));
    assert!(pending_offer(&pending, "x").is_err());
    forget_all(&mut active, &mut pending);
    assert!(!active.contains_key("y"));
}

#[test]
fn downloads_by_another_route_are_checked_against_the_digest() {
    let good = "ba7816bf8f01cfea414140de5dae2223b00361a396177a9cb410ff61f20015ad";
    assert_eq!(verify_download(b"abc", good), Ok(()));
    assert_eq!(verify_download(b"abd", good), Err(HASH_MISMATCH_MESSAGE.to_string()));
    assert_eq!(
        verify_download(b"abc", "BA7816BF8F01CFEA414140DE5DAE2223B00361A396177A9CB410FF61F20015AD"),
        Err(HASH_MISMATCH_MESSAGE.to_string())
    );
}

#[test]
fn a_direct_download_is_kept_only_when_its_digest_matches() {
    let good = "ba7816bf8f01cfea414140de5dae2223b00361a396177a9cb410ff61f20015ad";
    assert_eq!(after_direct_attempt(Some(b"abc"), good), DownloadStep::Done);
    assert_eq!(after_direct_attempt(Some(b"abd"), good), DownloadStep::FallBack);
    assert_eq!(after_direct_attempt(None, good), DownloadStep::FallBack);
}
