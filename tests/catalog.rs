use binhost::catalog::{format_platform_list, ArchEntry, Bin, BinEntry, Catalog, Platform, SystemEntry};

fn arch(name: &str, is_dir: bool) -> ArchEntry {
    ArchEntry { name: name.to_string(), is_dir }
}

fn system(name: &str, archs: Vec<ArchEntry>) -> SystemEntry {
    SystemEntry { name: name.to_string(), is_dir: true, archs }
}

fn bin_dir(name: &str, systems: Vec<SystemEntry>) -> BinEntry {
    BinEntry { name: name.to_string(), is_dir: true, systems }
}

fn sorted_platforms(b: &Bin) -> Vec<(String, String)> {
    let mut v: Vec<(String, String)> =
        b.platforms.iter().map(|p| (p.system.clone(), p.arch.clone())).collect();
    v.sort();
    v
}

fn foo_tree() -> Vec<BinEntry> {
    vec![bin_dir(
        "foo",
        vec![system("linux", vec![arch("amd64", true)]), system("darwin", vec![arch("arm64", true)])],
    )]
}

#[test]
fn lookup_finds_platforms_of_foo() {
    let c = Catalog::scan(&foo_tree());
    let b = c.get(&"foo".to_string()).expect("foo is listed");
    assert_eq!(b.name, "foo");
    assert_eq!(
        sorted_platforms(b),
        vec![("darwin".to_string(), "arm64".to_string()), ("linux".to_string(), "amd64".to_string())]
    );
    assert!(c.get(&"bar".to_string()).is_none());
    assert_eq!(c.len(), 1);
}

#[test]
fn scan_skips_entries_that_are_not_directories() {
    let mut tree = foo_tree();
    tree.push(BinEntry { name: "README".to_string(), is_dir: false, systems: vec![] });
    tree.push(bin_dir(
        "bar",
        vec![
            system("linux", vec![arch("amd64", true), arch("notes.txt", false)]),
            SystemEntry { name: "file".to_string(), is_dir: false, archs: vec![arch("x", true)] },
        ],
    ));
    let c = Catalog::scan(&tree);
    assert_eq!(c.len(), 2);
    assert!(c.get(&"README".to_string()).is_none());
    let bar = c.get(&"bar".to_string()).unwrap();
    assert_eq!(sorted_platforms(bar), vec![("linux".to_string(), "amd64".to_string())]);
}

#[test]
fn scan_of_reordered_listing_is_equal() {
    let a = vec![
        bin_dir("foo", vec![system("linux", vec![arch("amd64", true), arch("arm64", true)])]),
        bin_dir("bar", vec![system("darwin", vec![arch("arm64", true)])]),
    ];
    let b = vec![
        bin_dir("bar", vec![system("darwin", vec![arch("arm64", true)])]),
        bin_dir("foo", vec![system("linux", vec![arch("arm64", true), arch("amd64", true)])]),
    ];
    let ca = Catalog::scan(&a);
    let cb = Catalog::scan(&b);
    assert_eq!(ca.len(), cb.len());
    for name in ["foo", "bar"] {
        let n = name.to_string();
        assert_eq!(sorted_platforms(ca.get(&n).unwrap()), sorted_platforms(cb.get(&n).unwrap()));
    }
    assert_eq!(Catalog::scan(&a).len(), ca.len());
}

#[test]
fn scan_of_empty_tree_is_empty() {
    let c = Catalog::scan(&vec![]);
    assert_eq!(c.len(), 0);
    assert!(c.bins().is_empty());
}

#[test]
fn binary_without_platforms_is_listed() {
    let c = Catalog::scan(&vec![bin_dir("lonely", vec![])]);
    let b = c.get(&"lonely".to_string()).unwrap();
    assert!(b.platforms.is_empty());
    assert_eq!(format_platform_list(b), "");
}

#[test]
fn repeated_name_merges_platforms() {
    let c = Catalog::scan(&vec![
        bin_dir("foo", vec![system("linux", vec![arch("amd64", true)])]),
        bin_dir("foo", vec![system("darwin", vec![arch("arm64", true)])]),
    ]);
    assert_eq!(c.len(), 1);
    assert_eq!(sorted_platforms(c.get(&"foo".to_string()).unwrap()).len(), 2);
}

#[test]
fn repeated_platform_is_listed_once() {
    let c = Catalog::scan(&vec![
        bin_dir("foo", vec![system("linux", vec![arch("amd64", true), arch("amd64", true)])]),
        bin_dir("foo", vec![system("linux", vec![arch("amd64", true), arch("arm64", true)])]),
    ]);
    let b = c.get(&"foo".to_string()).unwrap();
    assert_eq!(format_platform_list(b), "linux-amd64|linux-arm64");
}

#[test]
fn platform_list_joins_with_bars() {
    let b = Bin {
        name: "foo".to_string(),
        platforms: vec![
            Platform { system: "linux".to_string(), arch: "amd64".to_string() },
            Platform { system: "darwin".to_string(), arch: "arm64".to_string() },
        ],
    };
    assert_eq!(format_platform_list(&b), "linux-amd64|darwin-arm64");
    let one = Bin {
        name: "x".to_string(),
        platforms: vec![Platform { system: "windows".to_string(), arch: "x86".to_string() }],
    };
    assert_eq!(format_platform_list(&one), "windows-x86");
}
