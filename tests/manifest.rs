use binhost::manifest::{
    build_manifest, digest, manifest_from_digests, name_less, Artifact, ArtifactDigest, ArtifactList,
};
use binhost::text::{push_bytes, push_hex_text};

const EMPTY_SHA256: &str = "e3b0c44298fc1c149afbf4c8996fb92427ae41e4649b934ca495991b7852b855";
const ABC_SHA256: &str = "ba7816bf8f01cfea414140de5dae2223b00361a396177a9cb410ff61f20015ad";

#[test]
fn digest_of_known_inputs() {
    let mut out = String::new();
    push_hex_text(&mut out, &digest(b"abc"));
    assert_eq!(out, ABC_SHA256);
    let mut out = String::new();
    push_hex_text(&mut out, &digest(b""));
    assert_eq!(out, EMPTY_SHA256);
}

#[test]
fn hex_is_lower_case_two_digits_per_byte() {
    let mut out = "x".to_string();
    push_hex_text(&mut out, &[0x00, 0x0f, 0xa0, 0xff]);
    assert_eq!(out, "x000fa0ff");
    let mut bytes = b"ab".to_vec();
    push_bytes(&mut bytes, b"cd");
    assert_eq!(bytes, b"abcd".to_vec());
}

#[test]
fn manifest_of_two_runners() {
    let pk: Vec<u8> = (0u8..32).collect();
    let mut artifacts = ArtifactList::new();
    artifacts.insert(Artifact { name: b"runner-a".to_vec(), content: b"".to_vec() });
    artifacts.insert(Artifact { name: b"runner-b".to_vec(), content: b"abc".to_vec() });
    let m = build_manifest(&pk, &artifacts);
    let mut expected = pk.clone();
    expected.extend_from_slice(EMPTY_SHA256.as_bytes());
    expected.extend_from_slice(b"  runner-a\n");
    expected.extend_from_slice(ABC_SHA256.as_bytes());
    expected.extend_from_slice(b"  runner-b\n");
    assert_eq!(m, expected);
}

#[test]
fn manifest_without_runners_is_the_key() {
    let pk = vec![7u8; 32];
    assert_eq!(build_manifest(&pk, &ArtifactList::new()), pk);
}

#[test]
fn manifest_from_given_digests() {
    let ds = vec![ArtifactDigest { name: b"r".to_vec(), digest: vec![0xab, 0x01] }];
    assert_eq!(manifest_from_digests(&[1, 2], &ds), b"\x01\x02ab01  r\n".to_vec());
}

fn artifact(name: &str) -> Artifact {
    Artifact { name: name.as_bytes().to_vec(), content: name.as_bytes().to_vec() }
}

#[test]
fn artifacts_are_kept_in_name_order() {
    let mut list = ArtifactList::new();
    for n in ["runner-b", "runner-a", "runner", "runner-ab", "a", "runner-a"] {
        list.insert(artifact(n));
    }
    assert_eq!(list.len(), 6);
    let names: Vec<&[u8]> = list.items().iter().map(|a| a.name.as_slice()).collect();
    let expected: Vec<&[u8]> = vec![b"a", b"runner", b"runner-a", b"runner-a", b"runner-ab", b"runner-b"];
    assert_eq!(names, expected);
}

#[test]
fn sorted_manifest_of_runners_listed_out_of_order() {
    let pk = vec![1u8; 32];
    let mut list = ArtifactList::new();
    list.insert(Artifact { name: b"runner-b".to_vec(), content: b"abc".to_vec() });
    list.insert(Artifact { name: b"runner-a".to_vec(), content: b"".to_vec() });
    let mut expected = pk.clone();
    expected.extend_from_slice(EMPTY_SHA256.as_bytes());
    expected.extend_from_slice(b"  runner-a\n");
    expected.extend_from_slice(ABC_SHA256.as_bytes());
    expected.extend_from_slice(b"  runner-b\n");
    assert_eq!(build_manifest(&pk, &list), expected);
}

#[test]
fn name_order_is_bytewise_with_prefix_first() {
    assert!(name_less(b"abc", b"abd"));
    assert!(name_less(b"ab", b"abc"));
    assert!(!name_less(b"abc", b"ab"));
    assert!(!name_less(b"abc", b"abc"));
    assert!(name_less(b"", b"a"));
    assert!(!name_less(b"b", b"abc"));
}

#[test]
fn equal_names_keep_insertion_order() {
    let mut list = ArtifactList::new();
    list.insert(Artifact { name: b"r".to_vec(), content: b"first".to_vec() });
    list.insert(Artifact { name: b"r".to_vec(), content: b"second".to_vec() });
    list.insert(Artifact { name: b"a".to_vec(), content: b"third".to_vec() });
    let contents: Vec<&[u8]> = list.items().iter().map(|a| a.content.as_slice()).collect();
    let expected: Vec<&[u8]> = vec![b"third", b"first", b"second"];
    assert_eq!(contents, expected);
}
