use binhost::cache::CatalogCache;
use binhost::catalog::{ArchEntry, BinEntry, Catalog, SystemEntry};

fn tree(names: &[&str]) -> Catalog {
    let listing: Vec<BinEntry> = names
        .iter()
        .map(|n| BinEntry {
            name: n.to_string(),
            is_dir: true,
            systems: vec![SystemEntry {
                name: "linux".to_string(),
                is_dir: true,
                archs: vec![ArchEntry { name: "amd64".to_string(), is_dir: true }],
            }],
        })
        .collect();
    Catalog::scan(&listing)
}

#[test]
fn cache_keeps_old_catalog_before_ttl() {
    let mut c = CatalogCache::new(tree(&["foo"]), 1000, 300);
    assert!(!c.is_stale(1300));
    c.apply_scan(1300, Some(tree(&["foo", "bar"])));
    assert_eq!(c.catalog().len(), 1);
    assert_eq!(c.last_refresh(), 1000);
}

#[test]
fn cache_refreshes_once_after_ttl() {
    let mut c = CatalogCache::new(tree(&["foo"]), 1000, 300);
    assert!(c.is_stale(1301));
    c.apply_scan(1301, Some(tree(&["foo", "bar"])));
    assert_eq!(c.catalog().len(), 2);
    assert!(c.catalog().get(&"bar".to_string()).is_some());
    assert_eq!(c.last_refresh(), 1301);
    assert!(!c.is_stale(1301));
    c.apply_scan(1301, Some(tree(&["baz"])));
    assert!(c.catalog().get(&"bar".to_string()).is_some());
    assert!(c.catalog().get(&"baz".to_string()).is_none());
    assert_eq!(c.ttl(), 300);
}

#[test]
fn failed_scan_keeps_stale_catalog() {
    let mut c = CatalogCache::new(tree(&["foo"]), 0, 10);
    c.apply_scan(100, None);
    assert_eq!(c.catalog().len(), 1);
    assert_eq!(c.last_refresh(), 0);
    assert!(c.is_stale(100));
}

#[test]
fn clock_going_back_is_not_stale() {
    let c = CatalogCache::new(tree(&["foo"]), 500, 10);
    assert!(!c.is_stale(100));
}
