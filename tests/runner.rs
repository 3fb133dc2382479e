use binhost::runner::{
    exit_code, fault_message, load_failure_outcome, push_decimal, unlocated_fault_message, verify_chunked, verify_whole, LoadError, Outcome, StreamVerifier,
    CHUNK_SIZE,
};
use binhost::signing::SigningAuthority;

fn content(len: usize) -> Vec<u8> {
    (0..len).map(|i| (i * 7 % 251) as u8).collect()
}

#[test]
fn chunk_size_does_not_change_verdict() {
    let auth = SigningAuthority::generate();
    let pk = auth.public_key();
    let data = content(5000);
    let sig = auth.sign(&data);
    for size in [1usize, 7, 64, 1024, 4999, 5000, 5001, 100000] {
        assert_eq!(verify_chunked(&pk, &sig, &data, size), Ok(true), "size {}", size);
    }
    let mut bad = data.clone();
    bad[4321] ^= 1;
    for size in [1usize, 1024, 9000] {
        assert_eq!(verify_chunked(&pk, &sig, &bad, size), Ok(false));
    }
}

#[test]
fn fresh_signatures_differ_and_all_verify() {
    let auth = SigningAuthority::generate();
    let pk = auth.public_key();
    let data = b"the same content".to_vec();
    let s1 = auth.sign(&data);
    let s2 = auth.sign(&data);
    assert_ne!(s1, s2);
    assert_eq!(verify_whole(&pk, &s1, &data), Ok(true));
    assert_eq!(verify_whole(&pk, &s2, &data), Ok(true));
}

#[test]
fn single_byte_change_is_rejected() {
    let auth = SigningAuthority::generate();
    let pk = auth.public_key();
    let data = content(300);
    let sig = auth.sign(&data);
    for i in [0usize, 150, 299] {
        let mut m = data.clone();
        m[i] = m[i].wrapping_add(1);
        assert_eq!(verify_whole(&pk, &sig, &m), Ok(false));
    }
}

#[test]
fn signature_of_empty_content_verifies() {
    let auth = SigningAuthority::generate();
    let sig = auth.sign(&[]);
    assert_eq!(sig.len(), 64);
    assert_eq!(verify_chunked(&auth.public_key(), &sig, &[], CHUNK_SIZE), Ok(true));
}

#[test]
fn wrong_key_length_is_a_rejection() {
    let auth = SigningAuthority::generate();
    let data = content(10);
    let sig = auth.sign(&data);
    let short = auth.public_key()[..31].to_vec();
    let e = StreamVerifier::load(&short, &sig).err().unwrap();
    assert_eq!(e, LoadError::KeyLength);
    assert_eq!(load_failure_outcome(e), Outcome::Rejected);
    assert_eq!(exit_code(load_failure_outcome(e)), 2);
    assert_eq!(verify_chunked(&short, &sig, &data, 4), Err(LoadError::KeyLength));
    assert_eq!(verify_whole(&auth.public_key(), &sig[..63], &data), Err(LoadError::SignatureLength));
}

#[test]
fn malformed_signature_is_a_fault() {
    let auth = SigningAuthority::generate();
    let sig = vec![0xffu8; 64];
    let e = StreamVerifier::load(&auth.public_key(), &sig).err().unwrap();
    assert_eq!(e, LoadError::Malformed);
    assert_eq!(load_failure_outcome(e), Outcome::Fault);
    assert_eq!(exit_code(Outcome::Fault), 3);
}

#[test]
fn feeding_full_chunks_asks_for_more() {
    let auth = SigningAuthority::generate();
    let data = content(2 * CHUNK_SIZE);
    let sig = auth.sign(&data);
    let mut v = StreamVerifier::load(&auth.public_key(), &sig).ok().unwrap();
    assert!(v.feed(&data[..CHUNK_SIZE]));
    assert!(v.feed(&data[CHUNK_SIZE..]));
    assert!(!v.feed(&[]));
    assert_eq!(v.finish(), Outcome::Verified);
    assert_eq!(exit_code(v.finish()), 0);
}

#[test]
fn wrong_content_finishes_rejected() {
    let auth = SigningAuthority::generate();
    let sig = auth.sign(b"one");
    let mut v = StreamVerifier::load(&auth.public_key(), &sig).ok().unwrap();
    assert!(!v.feed(b"two"));
    assert_eq!(v.finish(), Outcome::Rejected);
    assert_eq!(exit_code(Outcome::Rejected), 2);
}

#[test]
fn fault_message_names_the_location() {
    assert_eq!(fault_message(42, 7, b"src/main.rs"), b"Panicked at 42:7 in src/main.rs\n".to_vec());
    assert_eq!(fault_message(0, 4294967295, b""), b"Panicked at 0:4294967295 in \n".to_vec());
    let mut out = Vec::new();
    push_decimal(&mut out, 1009);
    assert_eq!(out, b"1009".to_vec());
}

#[test]
fn fault_without_location() {
    assert_eq!(unlocated_fault_message(), b"Panicked\n".to_vec());
}
