use vmm_core::digest::{hash_state_blob_parts, observable_digest_of, push_u64_le};

fn hex(bytes: &[u8]) -> String {
    bytes.iter().map(|b| format!("{b:02x}")).collect()
}

#[test]
fn state_blob_hash_is_sha256_of_the_framed_preimage() {
    assert_eq!(
        hex(&hash_state_blob_parts(b"ab", b"S")),
        "5e04b8b400f731bdf80eac812d36f94402b9c848356aca5e1fd784cb55d20034"
    );
    assert_eq!(
        hex(&hash_state_blob_parts(b"", b"")),
        "0cb02dd01abc4c9efb80d678a56a0f7e7f84eb372a4d0c9be6c9385de6ddc324"
    );
}

#[test]
fn state_blob_hash_frames_the_memory_length() {
    assert_ne!(
        hash_state_blob_parts(b"ab", b"c"),
        hash_state_blob_parts(b"a", b"bc")
    );
}

#[test]
fn observable_digest_of_known_stream() {
    assert_eq!(
        hex(&observable_digest_of(&[1, 0xdead_beef], b"PAYLOAD p PASS\n")),
        "730d5388a2ed42574cd5a51c6fe874cbdbc03e7570f6b7563f8b3a6277de5fbe"
    );
    assert_eq!(
        hex(&observable_digest_of(&[], b"")),
        "855c10a6e1d1d287325cd0748b011e955fe1f3abbe7185a0c52e02b36a26dba0"
    );
}

#[test]
fn observable_digest_sees_reported_values() {
    let a = observable_digest_of(&[1], b"PAYLOAD p PASS\n");
    let b = observable_digest_of(&[2], b"PAYLOAD p PASS\n");
    assert_ne!(a, b, "different reported values ⇒ different observable digest");
}

#[test]
fn push_u64_le_appends_eight_bytes() {
    let mut v = vec![9u8];
    push_u64_le(&mut v, 0x0102_0304_0506_0708);
    assert_eq!(v, [9, 8, 7, 6, 5, 4, 3, 2, 1]);
}
