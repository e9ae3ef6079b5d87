use std::hash::Hasher;

use jet_lag_core::resource::bundle::{BundleEntry, ResourceBundle};
use jet_lag_core::resource::fetcher::{bundle_url, check_status, resource_url, FetchError};
use jet_lag_core::resource::reference::ResourceReference;
use jet_lag_core::resource::store::{resource_file_name, verify_download, StoreError};

#[test]
fn reference_reports_its_parts() {
    let reference = ResourceReference::from_parts("tiles/nyc", 3, 1024, 0xfeed);
    assert_eq!(reference.id(), "tiles/nyc");
    assert_eq!(reference.version(), 3);
    assert_eq!(reference.size(), 1024);
    assert_eq!(reference.hash(), 0xfeed);
    let copy = reference.clone();
    assert_eq!(copy.id(), "tiles/nyc");
    assert_eq!(copy.hash(), 0xfeed);
}

#[test]
fn reference_from_bytes_measures_and_hashes() {
    let data = b"the quick brown fox";
    let reference = ResourceReference::from_bytes("fox", 1, data);
    assert_eq!(reference.size(), 19);
    assert_eq!(reference.hash(), twox_hash::XxHash3_64::oneshot(data));
    assert_eq!(reference.hash(), ResourceReference::from_bytes("other", 2, data).hash());
    assert_ne!(reference.hash(), ResourceReference::from_bytes("fox", 1, b"the quick brown fix").hash());
}

#[test]
fn hash_of_nothing_is_the_published_value() {
    // XXH3-64 of the empty input with the default seed
    let reference = ResourceReference::from_bytes("empty", 0, b"");
    assert_eq!(reference.size(), 0);
    assert_eq!(reference.hash(), 0x2d06_8005_38d3_94c2);
}

#[test]
fn hash_agrees_with_streaming() {
    let data: Vec<u8> = (0..20_000u32).map(|i| (i * 7 + 3) as u8).collect();
    let mut hasher = twox_hash::xxhash3_64::Hasher::new();
    for chunk in data.chunks(8192) {
        hasher.write(chunk);
    }
    assert_eq!(ResourceReference::from_bytes("big", 0, &data).hash(), hasher.finish());
}

#[test]
fn downloads_are_kept_only_if_the_hash_matches() {
    let data = b"payload";
    let reference = ResourceReference::from_bytes("p", 1, data);
    assert!(reference.matches(data));
    assert!(!reference.matches(b"payloae"));
    assert!(verify_download(&reference, data).is_ok());
    match verify_download(&reference, b"tampered") {
        Err(StoreError::Fetch(FetchError::InvalidData(message))) => {
            assert_eq!(message, "Hash mismatch")
        }
        other => panic!("unexpected: {:?}", other),
    }
    assert_eq!(resource_file_name(&reference), "p");
}

#[test]
fn bundle_starts_empty() {
    let bundle = ResourceBundle::new("geography", 7);
    assert_eq!(bundle.id(), "geography");
    assert_eq!(bundle.version(), 7);
    assert_eq!(bundle.size(), 0);
    assert!(bundle.resources().is_empty());
    assert!(bundle.get("anything").is_none());
}

#[test]
fn bundle_inserts_and_removes() {
    let mut bundle = ResourceBundle::new("geography", 7);
    bundle.insert("a".to_string(), ResourceReference::from_parts("id-a", 1, 100, 1));
    bundle.insert("b".to_string(), ResourceReference::from_parts("id-b", 1, 20, 2));
    assert_eq!(bundle.size(), 120);
    assert_eq!(bundle.get("a").unwrap().id(), "id-a");
    assert_eq!(bundle.get("b").unwrap().size(), 20);
    assert!(bundle.get("c").is_none());
    let names: Vec<&str> = bundle.resources().iter().map(|e: &BundleEntry| e.name.as_str()).collect();
    assert_eq!(names, vec!["a", "b"]);

    let removed = bundle.remove("a").unwrap();
    assert_eq!(removed.id(), "id-a");
    assert_eq!(bundle.size(), 20);
    assert!(bundle.get("a").is_none());
    assert_eq!(bundle.get("b").unwrap().id(), "id-b");
    assert!(bundle.remove("a").is_none());
    assert_eq!(bundle.size(), 20);
    assert_eq!(bundle.id(), "geography");
    assert_eq!(bundle.version(), 7);
}

#[test]
fn bundle_insert_replaces_but_keeps_counting() {
    let mut bundle = ResourceBundle::new("b", 1);
    bundle.insert("a".to_string(), ResourceReference::from_parts("old", 1, 100, 1));
    bundle.insert("x".to_string(), ResourceReference::from_parts("x", 1, 1, 1));
    bundle.insert("a".to_string(), ResourceReference::from_parts("new", 2, 30, 2));
    assert_eq!(bundle.get("a").unwrap().id(), "new");
    assert_eq!(bundle.resources().len(), 2);
    // the size counts every insert
    assert_eq!(bundle.size(), 131);
    let removed = bundle.remove("a").unwrap();
    assert_eq!(removed.id(), "new");
    assert_eq!(bundle.size(), 101);
    assert!(bundle.get("a").is_none());
    assert_eq!(bundle.get("x").unwrap().id(), "x");
}

#[test]
fn fetch_addresses_are_built_from_the_base() {
    assert_eq!(bundle_url("https://example.org", "nyc"), "https://example.org/bundles/nyc");
    let reference = ResourceReference::from_parts("tiles.pmtiles", 1, 1, 1);
    assert_eq!(
        resource_url("https://example.org", &reference),
        "https://example.org/resources/tiles.pmtiles"
    );
}

#[test]
fn response_status_is_classified() {
    assert!(check_status(200).is_ok());
    assert!(check_status(204).is_ok());
    assert!(check_status(299).is_ok());
    assert!(matches!(check_status(404), Err(FetchError::NotFound)));
    for (status, text) in [(199u16, "HTTP 199"), (300, "HTTP 300"), (500, "HTTP 500"), (0, "HTTP 0")] {
        match check_status(status) {
            Err(FetchError::Network(message)) => assert_eq!(message, text),
            other => panic!("unexpected: {:?}", other),
        }
    }
}

#[test]
fn a_bundle_from_parts_keeps_the_recorded_size() {
    let entries = vec![
        BundleEntry {
            name: "a".to_string(),
            resource: ResourceReference::from_parts("ra", 1, 10, 100),
        },
        BundleEntry {
            name: "b".to_string(),
            resource: ResourceReference::from_parts("rb", 1, 5, 200),
        },
    ];
    let bundle = ResourceBundle::from_parts("maps", 3, 40, entries).unwrap();
    assert_eq!(bundle.id(), "maps");
    assert_eq!(bundle.version(), 3);
    assert_eq!(bundle.size(), 40);
    assert_eq!(bundle.get("a").unwrap().hash(), 100);
    assert_eq!(bundle.get("b").unwrap().size(), 5);
    assert!(bundle.get("c").is_none());
}

#[test]
fn a_bundle_from_parts_needs_a_size_that_covers_its_entries() {
    let entries = |sizes: &[u64]| -> Vec<BundleEntry> {
        sizes
            .iter()
            .map(|size| BundleEntry {
                name: format!("r{}", size),
                resource: ResourceReference::from_parts("r", 1, *size, 0),
            })
            .collect()
    };
    assert!(ResourceBundle::from_parts("maps", 1, 15, entries(&[10, 5])).is_some());
    assert!(ResourceBundle::from_parts("maps", 1, 14, entries(&[10, 5])).is_none());
    assert!(ResourceBundle::from_parts("maps", 1, 0, entries(&[])).is_some());
    assert!(ResourceBundle::from_parts("maps", 1, u64::MAX, entries(&[u64::MAX, 1])).is_none());
    assert!(ResourceBundle::from_parts("maps", 1, u64::MAX, entries(&[u64::MAX, 0])).is_some());
}
