use chunk_server::index;
use chunk_server::manifest::{cache_control, classify_fetch, FetchClass, ManifestResolver};

#[test]
fn health_banner() {
    assert_eq!(index(), "Chunk Server is up \u{1F680}");
}

#[test]
fn missing_source_fails_open_to_empty() {
    let resolver = ManifestResolver::load(None);
    assert_eq!(resolver.len(), 0);
    assert!(resolver.resolve("anything").is_none());
    assert!(resolver.resolve("").is_none());
}

#[test]
fn unparsable_source_fails_open_to_empty() {
    let resolver = ManifestResolver::load(Some("this is not json"));
    assert_eq!(resolver.len(), 0);
    assert!(resolver.resolve("main").is_none());
    // A JSON object with a non-string value does not fit the manifest
    // shape either.
    let resolver = ManifestResolver::load(Some("{\"main\": 5}"));
    assert_eq!(resolver.len(), 0);
    assert!(resolver.resolve("main").is_none());
    // Nor does a JSON array.
    let resolver = ManifestResolver::load(Some("[\"main\"]"));
    assert_eq!(resolver.len(), 0);
}

#[test]
fn loaded_manifest_resolves_known_ids_only() {
    let source = "{\"main\": \"main-abc123.js\", \"vendor\": \"vendor-def456.js\"}";
    let resolver = ManifestResolver::load(Some(source));
    assert_eq!(resolver.len(), 2);
    assert_eq!(resolver.resolve("main").unwrap(), "main-abc123.js");
    assert_eq!(resolver.resolve("vendor").unwrap(), "vendor-def456.js");
    assert!(resolver.resolve("missing").is_none());
    assert!(resolver.resolve("main-abc123.js").is_none());
}

#[test]
fn entries_built_by_hand_resolve() {
    let resolver = ManifestResolver::from_entries(vec![
        ("app".to_string(), "app-1a2b.js".to_string()),
        ("style".to_string(), "style-3c4d.css".to_string()),
    ]);
    assert_eq!(resolver.resolve("app").unwrap(), "app-1a2b.js");
    assert_eq!(resolver.resolve("style").unwrap(), "style-3c4d.css");
    assert!(resolver.resolve("other").is_none());
}

#[test]
fn fetch_classification() {
    assert_eq!(classify_fetch(false, false), FetchClass::UnknownId);
    assert_eq!(classify_fetch(false, true), FetchClass::UnknownId);
    assert_eq!(classify_fetch(true, true), FetchClass::ServeCached);
    assert_eq!(classify_fetch(true, false), FetchClass::CorruptDeployment);
}

#[test]
fn cache_directives_are_long_lived_and_immutable() {
    assert_eq!(cache_control(), "public, max-age=86400, immutable");
}
