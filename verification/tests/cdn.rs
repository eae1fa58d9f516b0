use omniget_telegram::platforms::telegram::cdn::{
    advance_counter, decrypt_cdn_chunk, download_via_cdn, CdnStep, ReuploadStep,
};

fn bytes(hex: &str) -> Vec<u8> {
    (0..hex.len() / 2)
        .map(|i| u8::from_str_radix(&hex[2 * i..2 * i + 2], 16).unwrap())
        .collect()
}

fn key() -> Vec<u8> {
    bytes("603deb1015ca71be2b73aef0857d77811f352c073b6108d72d9810a30914dff4")
}

fn iv() -> Vec<u8> {
    bytes("f0f1f2f3f4f5f6f7f8f9fafbfcfdfeff")
}

const CIPHER: &str = "601ec313775789a5b7a7f504bbf3d228f443e3ca4d62b59aca84e990cacaf5c5\
2b0930daa23de94ce87017ba2d84988ddfc9c58db67aada613c2dd08457941a6";

const PLAIN: &str = "6bc1bee22e409f96e93d7e117393172aae2d8a571e03ac9c9eb76fac45af8e51\
30c81c46a35ce411e5fbc1191a0a52eff69f2445df4f9b17ad2b417be66c3710";

#[test]
fn chunks_are_decrypted_from_the_start() {
    let plain = decrypt_cdn_chunk(bytes(CIPHER), &key(), &iv(), 0).unwrap();
    assert_eq!(plain, bytes(PLAIN));
    let back = decrypt_cdn_chunk(plain, &key(), &iv(), 0).unwrap();
    assert_eq!(back, bytes(CIPHER));
}

#[test]
fn chunks_are_decrypted_from_the_middle() {
    let plain = decrypt_cdn_chunk(bytes(CIPHER)[16..].to_vec(), &key(), &iv(), 16).unwrap();
    assert_eq!(plain, bytes(PLAIN)[16..].to_vec());
}

#[test]
fn chunks_begin_at_whole_blocks() {
    assert_eq!(
        decrypt_cdn_chunk(vec![1], &key(), &iv(), 5),
        Err("CDN chunk offset must be 16-byte aligned, got 5".to_string())
    );
}

#[test]
fn counters_are_added_to_with_carry() {
    assert_eq!(advance_counter(&iv(), 1), bytes("f0f1f2f3f4f5f6f7f8f9fafbfcfdff00"));
    assert_eq!(
        advance_counter(&vec![255; 16], 1),
        vec![0; 16]
    );
    assert_eq!(
        advance_counter(&bytes("0000000000000000ffffffffffffffff"), 2),
        bytes("00000000000000010000000000000001")
    );
}

#[test]
fn keys_have_their_sizes() {
    match download_via_cdn(vec![0; 31], vec![0; 16], u64::MAX) {
        Err(t) => assert_eq!(t, "CDN encryption_key has wrong size: 31"),
        Ok(_) => panic!("accepted"),
    }
    match download_via_cdn(vec![0; 32], vec![0; 15], 5) {
        Err(t) => assert_eq!(t, "CDN encryption_iv has wrong size: 15"),
        Ok(_) => panic!("accepted"),
    }
}

#[test]
fn a_file_is_put_together_from_decrypted_chunks() {
    let mut d = download_via_cdn(key(), iv(), 64).ok().unwrap();
    assert_eq!((d.max_chunks, d.next_offset()), (5, Some(0)));
    assert!(matches!(d.take_chunk(bytes(CIPHER)), CdnStep::Done));
    assert_eq!(d.data, bytes(PLAIN));
    let mut d = download_via_cdn(key(), iv(), 0).ok().unwrap();
    assert_eq!(d.max_chunks, 4096);
    assert!(matches!(d.take_chunk(vec![0; 524_288]), CdnStep::More));
    assert_eq!(d.next_offset(), Some(524_288));
    assert!(matches!(d.take_chunk(vec![]), CdnStep::Done));
    assert_eq!(d.data.len(), 524_288);
}

#[test]
fn a_chunk_is_uploaded_again_three_times() {
    let mut d = download_via_cdn(key(), iv(), 0).ok().unwrap();
    for _ in 0..3 {
        assert!(matches!(d.needs_reupload(), ReuploadStep::Reupload));
    }
    match d.needs_reupload() {
        ReuploadStep::Fail(t) => assert_eq!(t, "upload.GetCdnFile reupload retry limit exceeded"),
        _ => panic!("uploaded a fourth time"),
    }
}
