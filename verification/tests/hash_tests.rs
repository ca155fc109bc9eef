use zsnapmgr::hash_stream::{check_full_write, checksum_suffix, sidecar_text_for, to_hex, HashingWrite};
use zsnapmgr::zfs_error::ZfsErrorKind;

fn ring_hex(data: &[u8]) -> String {
    let digest = ring::digest::digest(&ring::digest::SHA256, data);
    let mut s = String::new();
    for byte in digest.as_ref() {
        s.push_str(&format!("{:02x}", byte));
    }
    s
}

#[test]
fn sidecar_digest_matches_independent_recomputation() {
    // Round trip: the sidecar text for a byte stream equals the digest
    // recomputed independently over the same bytes.
    let data: Vec<u8> = (0u16..2000).map(|i| (i % 251) as u8).collect();
    for chunk in [1usize, 7, 256, 8192] {
        assert_eq!(sidecar_text_for(&data, chunk), ring_hex(&data));
    }
    let empty: Vec<u8> = Vec::new();
    assert_eq!(sidecar_text_for(&empty, 8192), ring_hex(&empty));
}

#[test]
fn known_digest_value() {
    let data = b"abc".to_vec();
    assert_eq!(
        sidecar_text_for(&data, 8192),
        "ba7816bf8f01cfea414140de5dae2223b00361a396177a9cb410ff61f20015ad"
    );
}

#[test]
fn incremental_updates_cover_exactly_the_fed_bytes() {
    let mut hw = HashingWrite::new();
    hw.update(b"hello ");
    hw.update(b"world");
    let digest = hw.finish();
    assert_eq!(to_hex(&digest), ring_hex(b"hello world"));
    assert_eq!(digest.len(), 32);
}

#[test]
fn hex_rendering() {
    assert_eq!(to_hex(&vec![]), "");
    assert_eq!(to_hex(&vec![0x00, 0x0f, 0xa5, 0xff]), "000fa5ff");
}

#[test]
fn checksum_line_suffix() {
    assert_eq!(checksum_suffix("a.zfs.zst.gpg"), " *a.zfs.zst.gpg\n");
}

#[test]
fn short_writes_are_fatal() {
    assert!(check_full_write(8192, 8192).is_ok());
    let e = check_full_write(8192, 100).unwrap_err();
    assert_eq!(e.kind, ZfsErrorKind::Io);
    assert_eq!(e.descr, "short write: wrote 100 of 8192 bytes");
}

#[test]
fn backend_errors_carry_their_text() {
    let e = zsnapmgr::zfs_error::ZfsError::backend("cannot open pool".to_string());
    assert_eq!(e.kind, ZfsErrorKind::Backend);
    assert_eq!(e.description(), "cannot open pool");
}
