use fast_file_tracker::hasher::{fingerprint_bytes, Fed, StreamHasher, FINGERPRINT_SEED};

#[test]
fn empty_content_has_the_published_digest() {
    assert_eq!(fingerprint_bytes(b""), 0xEF46_DB37_51D8_E999);
}

#[test]
fn short_contents_have_the_published_digests() {
    assert_eq!(fingerprint_bytes(b"a"), 0xD24E_C4F1_A98C_6E5B);
    assert_eq!(fingerprint_bytes(b"abc"), 0x44BC_2CF5_AD77_0999);
    assert_eq!(
        fingerprint_bytes(b"The quick brown fox jumps over the lazy dog"),
        0x0B24_2D36_1FDA_71BC
    );
}

#[test]
fn fingerprint_is_not_the_content_itself() {
    let content = 0x0102_0304_0506_0708u64.to_le_bytes();
    assert_ne!(fingerprint_bytes(&content), 0x0102_0304_0506_0708);
    assert_ne!(fingerprint_bytes(&content), 0);
}

#[test]
fn fingerprint_agrees_with_the_hasher_crate() {
    let content = b"hello\n";
    assert_eq!(FINGERPRINT_SEED, 0);
    assert_eq!(
        fingerprint_bytes(content),
        twox_hash::XxHash64::oneshot(FINGERPRINT_SEED, content)
    );
    assert_eq!(fingerprint_bytes(content), 0xE4C1_91D0_91BD_8853);
}

#[test]
fn chunking_does_not_change_the_fingerprint() {
    let content = b"The quick brown fox jumps over the lazy dog, twice over.";
    for size in 1..content.len() {
        let mut hasher = StreamHasher::new();
        for chunk in content.chunks(size) {
            assert!(hasher.update(chunk));
        }
        assert_eq!(hasher.finish(), fingerprint_bytes(content));
    }
}

#[test]
fn same_content_gives_the_same_fingerprint_every_time() {
    let first = fingerprint_bytes(b"0123456789abcdef");
    let second = fingerprint_bytes(b"0123456789abcdef");
    assert_eq!(first, second);
    assert_eq!(first, 0x5C5B_90C3_4E37_6D0B);
}

#[test]
fn flipping_one_byte_changes_the_fingerprint() {
    let content = b"0123456789abcdef".to_vec();
    for at in 0..content.len() {
        let mut changed = content.clone();
        changed[at] ^= 0x01;
        assert_ne!(fingerprint_bytes(&changed), fingerprint_bytes(&content));
    }
}

#[test]
fn a_fresh_hasher_has_the_fingerprint_of_nothing() {
    assert_eq!(StreamHasher::new().finish(), fingerprint_bytes(b""));
}

#[test]
fn an_empty_chunk_ends_the_file() {
    let mut hasher = StreamHasher::new();
    assert_eq!(hasher.feed(b"hel"), Fed::More);
    assert_eq!(hasher.feed(b"lo\n"), Fed::More);
    assert_eq!(
        hasher.feed(b""),
        Fed::Done { fingerprint: 0xE4C1_91D0_91BD_8853 }
    );
}

#[test]
fn an_empty_file_is_done_at_once() {
    let mut hasher = StreamHasher::new();
    assert_eq!(
        hasher.feed(&[]),
        Fed::Done { fingerprint: 0xEF46_DB37_51D8_E999 }
    );
}

#[test]
fn finish_can_be_asked_more_than_once() {
    let mut hasher = StreamHasher::new();
    assert!(hasher.update(b"x"));
    assert_eq!(hasher.finish(), 0x5C80_C096_8304_1123);
    assert_eq!(hasher.finish(), 0x5C80_C096_8304_1123);
    assert!(hasher.update(b""));
    assert_eq!(hasher.finish(), 0x5C80_C096_8304_1123);
}
