use codescope::discovery::{detect_language, path_extension, FileDiscovery};

#[test]
fn test_detect_language_by_extension() {
    assert_eq!(detect_language("src/a.ts").as_deref(), Some("typescript"));
    assert_eq!(detect_language("a.tsx").as_deref(), Some("tsx"));
    assert_eq!(detect_language("lib/b.js").as_deref(), Some("javascript"));
    assert_eq!(detect_language("c.py").as_deref(), Some("unknown"));
    assert_eq!(detect_language("Makefile"), None);
}

#[test]
fn test_path_extension_edges() {
    assert_eq!(path_extension("a/b/c.ts").as_deref(), Some("ts"));
    assert_eq!(path_extension("a.b/c"), None);
    assert_eq!(path_extension(".gitignore"), None);
    assert_eq!(path_extension("dir/.hidden"), None);
    assert_eq!(path_extension("archive.tar.gz").as_deref(), Some("gz"));
}

#[test]
fn test_file_discovery_matches_selected_extensions() {
    let discovery = FileDiscovery::default_extensions();
    assert!(discovery.matches_path("src/main.ts"));
    assert!(discovery.matches_path("src/view.tsx"));
    assert!(discovery.matches_path("old/script.js"));
    assert!(!discovery.matches_path("README.md"));
    assert!(!discovery.matches_path("noextension"));

    let only_js = FileDiscovery::new(vec!["js".to_string()]);
    assert!(only_js.matches_path("a.js"));
    assert!(!only_js.matches_path("a.ts"));
}
