use imgdedup::table::{check_header, check_pow2};
use imgdedup::{
    check_upload, classify_upload, content_digest, generate_identifier, public_name, DedupIndex,
    DownloadError, FileKind, HashIds, IndexError, SnapshotError, UploadError, MAX_UPLOAD_BYTES,
};

fn hex(bytes: &[u8]) -> String {
    bytes.iter().map(|b| format!("{:02x}", b)).collect()
}

fn png_payload(seed: u8) -> Vec<u8> {
    let mut p = vec![0x89, b'P', b'N', b'G', 0x0D, 0x0A, 0x1A, 0x0A];
    for i in 0..1024u32 {
        p.push((i as u8).wrapping_mul(31).wrapping_add(seed));
    }
    p
}

#[test]
fn empty_payload_digest_is_sha256() {
    assert_eq!(
        hex(&content_digest(&[])),
        "e3b0c44298fc1c149afbf4c8996fb92427ae41e4649b934ca495991b7852b855"
    );
}

#[test]
fn abc_digest_is_sha256() {
    assert_eq!(
        hex(&content_digest(b"abc")),
        "ba7816bf8f01cfea414140de5dae2223b00361a396177a9cb410ff61f20015ad"
    );
}

#[test]
fn equal_payloads_equal_digests_distinct_differ() {
    assert_eq!(content_digest(b"same"), content_digest(b"same"));
    assert_ne!(content_digest(b"one"), content_digest(b"two"));
}

#[test]
fn generated_identifier_is_alphanumeric() {
    for _ in 0..50 {
        let id = generate_identifier();
        assert_eq!(id.len(), 10);
        assert!(id.iter().all(|b| b.is_ascii_alphanumeric()));
    }
}

#[test]
fn public_name_joins_with_dot() {
    assert_eq!(public_name(b"aB3dKq9Lm2", "png"), b"aB3dKq9Lm2.png".to_vec());
    assert_eq!(public_name(b"0123456789", ""), b"0123456789.".to_vec());
}

#[test]
fn insert_then_lookup() {
    let mut index = DedupIndex::new(16);
    let d = content_digest(b"payload");
    assert_eq!(index.lookup(&d), None);
    assert_eq!(index.insert(&d, b"aB3dKq9Lm2"), Ok(()));
    assert_eq!(index.lookup(&d), Some(*b"aB3dKq9Lm2"));
    assert_eq!(index.len(), 1);
}

#[test]
fn insert_rejects_wrong_length() {
    let mut index = DedupIndex::new(16);
    let d = content_digest(b"x");
    assert_eq!(index.insert(&d, b"short"), Err(IndexError::InvalidIdentifier));
    assert_eq!(index.insert(&d, b"elevenchars"), Err(IndexError::InvalidIdentifier));
    assert_eq!(index.len(), 0);
}

#[test]
fn insert_rejects_non_ascii() {
    let mut index = DedupIndex::new(16);
    let d = content_digest(b"x");
    let id = [b'a', b'b', b'c', b'd', b'e', b'f', b'g', b'h', b'i', 0xC3];
    assert_eq!(index.insert(&d, &id), Err(IndexError::InvalidIdentifier));
    assert_eq!(index.lookup(&d), None);
}

#[test]
fn insert_keeps_first_identifier() {
    let mut index = DedupIndex::new(16);
    let d = content_digest(b"x");
    assert_eq!(index.insert(&d, b"AAAAAAAAAA"), Ok(()));
    assert_eq!(index.insert(&d, b"BBBBBBBBBB"), Err(IndexError::DigestPresent));
    assert_eq!(index.lookup(&d), Some(*b"AAAAAAAAAA"));
}

#[test]
fn resolve_digest_uses_candidate_once() {
    let mut index = DedupIndex::new(16);
    let d = content_digest(b"img");
    let r1 = index.resolve_digest(&d, b"firstfirst");
    assert_eq!(r1.identifier, *b"firstfirst");
    assert!(r1.inserted);
    let r2 = index.resolve_digest(&d, b"secondsecs");
    assert_eq!(r2.identifier, *b"firstfirst");
    assert!(!r2.inserted);
    assert_eq!(index.len(), 1);
}

#[test]
fn resolve_name_is_idempotent() {
    let mut index = DedupIndex::new(16);
    let p = png_payload(0);
    let first = index.resolve_name(&p);
    let second = index.resolve_name(&p);
    assert!(first.inserted);
    assert!(!second.inserted);
    assert_eq!(first.identifier, second.identifier);
    assert_eq!(index.len(), 1);
}

#[test]
fn png_scenario_two_payloads() {
    let mut index = DedupIndex::new(1000);
    let p = png_payload(0);
    let ext = check_upload(&p, Some(p.len() as u64)).unwrap();
    assert_eq!(ext, "png");
    let first = index.resolve_name(&p);
    let name = public_name(&first.identifier, &ext);
    assert_eq!(name.len(), 14);
    assert_eq!(&name[10..], b".png");
    assert_eq!(&name[..10], &first.identifier);
    let again = index.resolve_name(&p);
    assert_eq!(again.identifier, first.identifier);
    let p2 = png_payload(7);
    let other = index.resolve_name(&p2);
    assert!(other.inserted);
    assert_eq!(index.len(), 2);
    assert_eq!(index.lookup(&content_digest(&p2)), Some(other.identifier));
}

#[test]
fn repeated_resolves_give_one_entry() {
    let mut index = DedupIndex::new(4);
    let p = b"same bytes every time".to_vec();
    let ids: Vec<[u8; 10]> = (0..25).map(|_| index.resolve_name(&p).identifier).collect();
    assert!(ids.iter().all(|id| *id == ids[0]));
    assert_eq!(index.len(), 1);
}

#[test]
fn distinct_payloads_grow_index() {
    let mut index = DedupIndex::new(4);
    for i in 0..300u32 {
        index.resolve_name(&i.to_le_bytes());
    }
    assert_eq!(index.len(), 300);
}

#[test]
fn empty_payload_resolves_like_any() {
    let mut index = DedupIndex::new(4);
    let a = index.resolve_name(&[]);
    let b = index.resolve_name(&[]);
    assert_eq!(a.identifier, b.identifier);
    assert_eq!(index.lookup(&content_digest(&[])), Some(a.identifier));
}

#[test]
fn snapshot_round_trip() {
    let mut index = DedupIndex::new(4);
    let mut digests = Vec::new();
    for i in 0..40u32 {
        let bytes = i.to_be_bytes();
        index.resolve_name(&bytes);
        digests.push(content_digest(&bytes));
    }
    let snap = index.snapshot();
    let loaded = DedupIndex::from_snapshot(&snap).unwrap();
    assert_eq!(loaded.len(), 40);
    for d in &digests {
        assert_eq!(loaded.lookup(d), index.lookup(d));
        assert!(loaded.lookup(d).is_some());
    }
    assert_eq!(loaded.lookup(&content_digest(b"absent")), None);
}

#[test]
fn empty_index_round_trip() {
    let index = DedupIndex::new(1000);
    let loaded = DedupIndex::from_snapshot(&index.snapshot()).unwrap();
    assert_eq!(loaded.len(), 0);
}

#[test]
fn snapshot_malformed_is_refused() {
    assert!(matches!(DedupIndex::from_snapshot(&[]), Err(SnapshotError::Malformed)));
    assert!(matches!(DedupIndex::from_snapshot(&[0u8; 64]), Err(SnapshotError::Malformed)));
    let mut snap = DedupIndex::new(8).snapshot();
    snap.pop();
    assert!(matches!(DedupIndex::from_snapshot(&snap), Err(SnapshotError::Malformed)));
}

#[test]
fn snapshot_with_non_ascii_identifier_is_refused() {
    let mut table = odht::HashTableOwned::<HashIds>::with_capacity(8, 95);
    table.insert(&[1u8; 32], &[0xFFu8; 10]);
    let r = DedupIndex::from_snapshot(table.raw_bytes());
    assert!(matches!(r, Err(SnapshotError::InvalidIdentifier)));
}

#[test]
fn classify_cases() {
    let png = || Some(FileKind { is_image: true, extension: "png".to_string() });
    let zip = || Some(FileKind { is_image: false, extension: "zip".to_string() });
    assert_eq!(classify_upload(Some(10), png()), Ok("png".to_string()));
    assert_eq!(classify_upload(Some(MAX_UPLOAD_BYTES), png()), Ok("png".to_string()));
    assert_eq!(classify_upload(Some(MAX_UPLOAD_BYTES + 1), png()), Err(UploadError::FileTooBig));
    assert_eq!(classify_upload(None, png()), Err(UploadError::InternalServerError));
    assert_eq!(classify_upload(Some(10), None), Err(UploadError::UnknownFileType));
    assert_eq!(classify_upload(Some(10), zip()), Err(UploadError::NotAnImage));
}

#[test]
fn check_upload_sniffs_payload() {
    let p = png_payload(3);
    assert_eq!(check_upload(&p, Some(p.len() as u64)), Ok("png".to_string()));
    let text = b"just some plain words, nothing else".to_vec();
    assert_eq!(check_upload(&text, Some(text.len() as u64)), Err(UploadError::UnknownFileType));
    let mut pdf = b"%PDF-1.4\n".to_vec();
    pdf.extend_from_slice(&[b' '; 64]);
    assert_eq!(check_upload(&pdf, Some(pdf.len() as u64)), Err(UploadError::NotAnImage));
    assert_eq!(check_upload(&p, Some(30_000_000)), Err(UploadError::FileTooBig));
}

#[test]
fn error_status_codes_and_messages() {
    assert_eq!(UploadError::UnknownFileType.status_code(), 400);
    assert_eq!(UploadError::NotAnImage.status_code(), 400);
    assert_eq!(UploadError::FileTooBig.status_code(), 413);
    assert_eq!(UploadError::InternalServerError.status_code(), 500);
    assert_eq!(DownloadError::NotFound.status_code(), 404);
    assert_eq!(DownloadError::InternalServerError.status_code(), 500);
    assert_eq!(UploadError::FileTooBig.message(), "File is too big");
    assert_eq!(UploadError::UnknownFileType.message(), "Unknown file type");
    assert_eq!(UploadError::NotAnImage.message(), "Not an image");
    assert_eq!(UploadError::InternalServerError.message(), "Internal server error");
    assert_eq!(DownloadError::NotFound.message(), "File not found");
    assert_eq!(DownloadError::InternalServerError.message(), "Internal server error");
}

#[test]
fn corrupted_identifier_byte_is_refused() {
    let mut index = DedupIndex::new(8);
    index.insert(&content_digest(b"a"), b"abcdefghij").unwrap();
    let mut snap = index.snapshot();
    let slots = (snap.len() - 48) / 43;
    let mut changed = false;
    for i in 0..slots {
        let value = &mut snap[64 + 42 * i..74 + 42 * i];
        if value == b"abcdefghij" {
            value[3] = 0xE9;
            changed = true;
        }
    }
    assert!(changed);
    assert!(matches!(DedupIndex::from_snapshot(&snap), Err(SnapshotError::InvalidIdentifier)));
}

#[test]
fn snapshot_header_checks() {
    let snap = DedupIndex::new(8).snapshot();
    assert!(check_header(&snap));
    assert_eq!(&snap[0..4], b"ODHT");
    let mut bad = snap.clone();
    bad[27] = 3;
    assert!(!check_header(&bad));
    assert!(matches!(DedupIndex::from_snapshot(&bad), Err(SnapshotError::Malformed)));
    assert!(check_pow2(1) && check_pow2(64) && !check_pow2(0) && !check_pow2(48));
}

fn sample_snapshot() -> Vec<u8> {
    let mut index = DedupIndex::new(8);
    index.insert(&content_digest(b"a"), b"abcdefghij").unwrap();
    index.insert(&content_digest(b"b"), b"klmnopqrst").unwrap();
    index.snapshot()
}

fn slot_layout(snap: &[u8]) -> (usize, usize) {
    let slots = (snap.len() - 48) / 43;
    (slots, 32 + 42 * slots)
}

#[test]
fn forged_item_count_is_refused() {
    let mut snap = sample_snapshot();
    assert_eq!(snap[8], 2);
    snap[8] = 3;
    assert!(matches!(DedupIndex::from_snapshot(&snap), Err(SnapshotError::Malformed)));
    snap[8] = 1;
    assert!(matches!(DedupIndex::from_snapshot(&snap), Err(SnapshotError::Malformed)));
}

#[test]
fn zero_load_factor_is_refused() {
    let mut snap = sample_snapshot();
    snap[28] = 0;
    snap[29] = 0;
    assert!(matches!(DedupIndex::from_snapshot(&snap), Err(SnapshotError::Malformed)));
}

#[test]
fn garbage_in_empty_slot_is_refused() {
    let mut snap = sample_snapshot();
    let (slots, meta) = slot_layout(&snap);
    let empty = (0..slots).rev().find(|i| snap[meta + i] >= 128).unwrap();
    snap[64 + 42 * empty] = b'x';
    assert!(matches!(DedupIndex::from_snapshot(&snap), Err(SnapshotError::Malformed)));
}

#[test]
fn duplicate_digest_is_refused() {
    let mut snap = sample_snapshot();
    let (slots, meta) = slot_layout(&snap);
    let full = (0..slots).find(|i| snap[meta + i] < 128).unwrap();
    let empty = (0..slots).find(|i| snap[meta + i] >= 128).unwrap();
    let entry: Vec<u8> = snap[32 + 42 * full..74 + 42 * full].to_vec();
    snap[32 + 42 * empty..74 + 42 * empty].copy_from_slice(&entry);
    snap[meta + empty] = snap[meta + full];
    snap[8] = 3;
    assert!(matches!(DedupIndex::from_snapshot(&snap), Err(SnapshotError::Malformed)));
}

#[test]
fn loaded_index_keeps_growing() {
    let snap = sample_snapshot();
    let mut loaded = DedupIndex::from_snapshot(&snap).unwrap();
    assert_eq!(loaded.len(), 2);
    assert_eq!(loaded.lookup(&content_digest(b"a")), Some(*b"abcdefghij"));
    for i in 0..100u32 {
        loaded.resolve_name(&i.to_le_bytes());
    }
    assert_eq!(loaded.len(), 102);
    let again = DedupIndex::from_snapshot(&loaded.snapshot()).unwrap();
    assert_eq!(again.len(), 102);
    assert_eq!(again.lookup(&content_digest(b"b")), Some(*b"klmnopqrst"));
}
