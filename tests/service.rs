use binhost::catalog::{ArchEntry, Bin, BinEntry, Catalog, Platform, SystemEntry};
use binhost::manifest::{build_manifest, Artifact, ArtifactList};
use binhost::runner::verify_whole;
use binhost::service::{
    binary_path, binary_response, debug_platform_texts, index_from_texts, index_text, platforms_response, script_response, sign_response, BinaryResponse, ScriptResponse,
    SignResponse, BAD_REQUEST, NOT_FOUND,
};
use binhost::signing::SigningAuthority;
use binhost::text::push_hex_text;

#[test]
fn path_of_a_binary() {
    let p = binary_path(&"bin".to_string(), &"foo".to_string(), &"linux".to_string(), &"amd64".to_string());
    assert_eq!(p, "bin/foo/linux/amd64/foo");
}

#[test]
fn platforms_of_known_and_unknown_binary() {
    let c = Catalog::scan(&vec![BinEntry {
        name: "foo".to_string(),
        is_dir: true,
        systems: vec![SystemEntry {
            name: "linux".to_string(),
            is_dir: true,
            archs: vec![ArchEntry { name: "amd64".to_string(), is_dir: true }],
        }],
    }]);
    match platforms_response(&c, &"foo".to_string()) {
        ScriptResponse::Text(t) => assert_eq!(t, "linux-amd64"),
        ScriptResponse::Status(_) => panic!("foo is listed"),
    }
    match platforms_response(&c, &"bar".to_string()) {
        ScriptResponse::Status(s) => assert_eq!(s, NOT_FOUND),
        ScriptResponse::Text(_) => panic!("bar is not listed"),
    }
}

#[test]
fn unreadable_binary_is_a_bad_request() {
    match binary_response("bin/x".to_string(), false) {
        BinaryResponse::Status(s) => assert_eq!(s, 400),
        BinaryResponse::Bin(_) => panic!("not readable"),
    }
    match binary_response("bin/x".to_string(), true) {
        BinaryResponse::Bin(p) => assert_eq!(p, "bin/x"),
        BinaryResponse::Status(_) => panic!("readable"),
    }
}

#[test]
fn signature_response_verifies() {
    let auth = SigningAuthority::generate();
    match sign_response(&auth, None) {
        SignResponse::Status(s) => assert_eq!(s, BAD_REQUEST),
        SignResponse::Bin(_) => panic!("nothing to sign"),
    }
    let data = b"binary".to_vec();
    match sign_response(&auth, Some(data.clone())) {
        SignResponse::Bin(sig) => assert_eq!(verify_whole(&auth.public_key(), &sig, &data), Ok(true)),
        SignResponse::Status(_) => panic!("content was given"),
    }
}

#[test]
fn authority_manifest_starts_with_its_key() {
    let auth = SigningAuthority::generate();
    let pk = auth.public_key();
    assert_eq!(pk.len(), 32);
    let mut artifacts = ArtifactList::new();
    artifacts.insert(Artifact { name: b"runner".to_vec(), content: b"abc".to_vec() });
    let m = auth.manifest(&artifacts);
    assert_eq!(m, build_manifest(&pk, &artifacts));
    assert_eq!(&m[..32], &pk[..]);
}

#[test]
fn index_lists_binaries_with_manifest_digest() {
    let bins = vec![
        Bin {
            name: "foo".to_string(),
            platforms: vec![
                Platform { system: "linux".to_string(), arch: "amd64".to_string() },
                Platform { system: "darwin".to_string(), arch: "arm64".to_string() },
            ],
        },
        Bin { name: "bar".to_string(), platforms: vec![] },
    ];
    assert_eq!(
        index_text(&[0xde, 0xad, 0x01], &bins),
        "Manifest hashsum: dead01\n- foo (platforms: [\"linux-amd64\", \"darwin-arm64\"])\n- bar (platforms: [])\n"
    );
    assert_eq!(index_text(&[0xde], &vec![]), "No binaries found");
}

#[test]
fn hex_text_of_bytes() {
    let mut s = "#".to_string();
    push_hex_text(&mut s, &[0x00, 0x9a, 0xff]);
    assert_eq!(s, "#009aff");
}

#[test]
fn install_script_fills_the_template() {
    let c = Catalog::scan(&vec![BinEntry {
        name: "foo".to_string(),
        is_dir: true,
        systems: vec![SystemEntry {
            name: "linux".to_string(),
            is_dir: true,
            archs: vec![ArchEntry { name: "amd64".to_string(), is_dir: true }],
        }],
    }]);
    let template = "#!/bin/sh\n# {{NAME}}\nP=\"{{PLATFORM_LIST}}\"\nU={{EXTERNAL_ADDRESS}}/bin/{{NAME}}\n{{OTHER}}".to_string();
    let url = "http://h:8000".to_string();
    match script_response(&c, &"foo".to_string(), &template, &url) {
        ScriptResponse::Text(t) => assert_eq!(
            t,
            "#!/bin/sh\n# foo\nP=\"linux-amd64\"\nU=http://h:8000/bin/foo\n{{OTHER}}"
        ),
        ScriptResponse::Status(_) => panic!("foo is listed"),
    }
    match script_response(&c, &"nope".to_string(), &template, &url) {
        ScriptResponse::Status(s) => assert_eq!(s, NOT_FOUND),
        ScriptResponse::Text(_) => panic!("nope is not listed"),
    }
}

#[test]
fn index_escapes_platform_names_as_debug_does() {
    let bins = vec![Bin {
        name: "q".to_string(),
        platforms: vec![
            Platform { system: "\"".to_string(), arch: "a".to_string() },
            Platform { system: "back\\slash".to_string(), arch: "tab\t".to_string() },
        ],
    }];
    let texts: Vec<String> = vec!["\"-a".to_string(), "back\\slash-tab\t".to_string()];
    let expected = format!("Manifest hashsum: 00\n- q (platforms: {:?})\n", texts);
    assert_eq!(index_text(&[0], &bins), expected);
    assert_eq!(
        debug_platform_texts(&bins[0].platforms),
        vec!["\"\\\"-a\"".to_string(), "\"back\\\\slash-tab\\t\"".to_string()]
    );
}

#[test]
fn index_from_given_texts() {
    let bins = vec![Bin { name: "x".to_string(), platforms: vec![] }];
    let texts = vec![vec!["A".to_string(), "B".to_string()]];
    assert_eq!(index_from_texts(&[0xff], &bins, &texts), "Manifest hashsum: ff\n- x (platforms: [A, B])\n");
}
