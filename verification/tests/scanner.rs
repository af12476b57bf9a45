//! Chunked remote scanning: chunk-local matches, the `- 1` address
//! adjustment, failure-tolerant chunk walking, and the documented
//! chunk-boundary limitation.

use rose_title_changer::memory::ProcessImage;
use rose_title_changer::pattern::Signature;
use rose_title_changer::scan::sig_scan;

fn fresh(len: usize) -> (ProcessImage, Vec<u8>) {
    (ProcessImage::new(), vec![0u8; len])
}

#[test]
fn match_in_first_chunk_gets_minus_one_adjustment() {
    let (mut img, mut bytes) = fresh(0x4000);
    bytes[0x40] = 0xA1;
    bytes[0x41] = 0xB2;
    assert!(img.add_region(0x1000, bytes));
    let sig = Signature::compile("A1 B2").unwrap();
    assert_eq!(sig_scan(&img, &sig, 0x1000, 0x5000), Some(0x103F));
}

#[test]
fn match_in_later_chunk_is_chunk_local() {
    // the signature lies entirely within chunk 2 (cursor 0x3000)
    let (mut img, mut bytes) = fresh(0x4000);
    bytes[0x2000 + 0x123] = 0xC3;
    bytes[0x2000 + 0x124] = 0xD4;
    assert!(img.add_region(0x1000, bytes));
    let sig = Signature::compile("C3 D4").unwrap();
    assert_eq!(sig_scan(&img, &sig, 0x1000, 0x5000), Some(0x3000 + 0x123 - 1));
}

#[test]
fn signature_straddling_chunk_boundary_is_not_found() {
    // both chunks read fine, but the 4-byte signature crosses the cursor
    // boundary at 0x2000: the chunked walk cannot see it
    let (mut img, mut bytes) = fresh(0x4000);
    bytes[0xFFE] = 0xA1;
    bytes[0xFFF] = 0xB2;
    bytes[0x1000] = 0xC3;
    bytes[0x1001] = 0xD4;
    assert!(img.add_region(0x1000, bytes));
    let sig = Signature::compile("A1 B2 C3 D4").unwrap();
    assert_eq!(sig_scan(&img, &sig, 0x1000, 0x5000), None);
}

#[test]
fn unreadable_chunk_is_skipped_not_fatal() {
    // chunk 0 is absent (its read fails); the signature sits in chunk 1
    let mut img = ProcessImage::new();
    let mut bytes = vec![0u8; 0x1000];
    bytes[0x10] = 0xA1;
    bytes[0x11] = 0xB2;
    assert!(img.add_region(0x2000, bytes));
    let sig = Signature::compile("A1 B2").unwrap();
    assert_eq!(sig_scan(&img, &sig, 0x1000, 0x3000), Some(0x2000 + 0x10 - 1));
}

#[test]
fn earliest_chunk_wins() {
    let (mut img, mut bytes) = fresh(0x4000);
    // occurrences in chunk 0 and chunk 1; the chunk-0 one is reported
    bytes[0x200] = 0xA1;
    bytes[0x201] = 0xB2;
    bytes[0x1200] = 0xA1;
    bytes[0x1201] = 0xB2;
    assert!(img.add_region(0x1000, bytes));
    let sig = Signature::compile("A1 B2").unwrap();
    assert_eq!(sig_scan(&img, &sig, 0x1000, 0x5000), Some(0x1000 + 0x200 - 1));
}

#[test]
fn no_match_anywhere_returns_none() {
    let (mut img, bytes) = fresh(0x4000);
    assert!(img.add_region(0x1000, bytes));
    let sig = Signature::compile("A1 B2").unwrap();
    assert_eq!(sig_scan(&img, &sig, 0x1000, 0x5000), None);
}

#[test]
fn empty_range_scans_nothing() {
    let (mut img, bytes) = fresh(0x4000);
    assert!(img.add_region(0x1000, bytes));
    let sig = Signature::compile("00").unwrap();
    assert_eq!(sig_scan(&img, &sig, 0x1000, 0x1000), None);
}

#[test]
fn wildcarded_real_shape_signature_is_found() {
    // mirrors the real use: fixed instruction bytes, then wildcards over a
    // displacement that varies from process to process
    let (mut img, mut bytes) = fresh(0x4000);
    let fixed = [0xA1, 0xB2, 0xC3, 0xD4, 0xE5, 0xF6];
    bytes[0x40..0x46].copy_from_slice(&fixed);
    bytes[0x46..0x4A].copy_from_slice(&[0x20, 0x00, 0x00, 0x00]);
    assert!(img.add_region(0x1000, bytes));
    let sig = Signature::compile("A1 B2 C3 D4 E5 F6 ? ? ? ?").unwrap();
    assert_eq!(sig_scan(&img, &sig, 0x1000, 0x5000), Some(0x103F));
}
