use pvm::network::{
    cached_versions, download_url, encode_cache, get_cache_path, get_target_triple, index_url,
    parse_listing_entry, resolve_version, versions_from_listing, RemoteError, CACHE_MAX_AGE_SECS,
};

fn listing(v: &[(&str, &[&str])]) -> Vec<(String, Vec<String>)> {
    v.iter()
        .map(|(a, ps)| (a.to_string(), ps.iter().map(|p| p.to_string()).collect()))
        .collect()
}

fn file(name: &str) -> (String, bool) {
    (name.to_string(), false)
}

#[test]
fn test_install_resolve_failure_uses_cache_offline() {
    let versions = listing(&[("8.9.7", &["cli"])]);
    let e = resolve_version(&versions, "7.0").unwrap_err();
    assert!(e
        .message()
        .contains("Could not resolve a remotely available version matching '7.0'"));
}

#[test]
fn target_triples_for_supported_platforms() {
    assert_eq!(get_target_triple("linux", "x86_64"), Ok("linux-x86_64".to_string()));
    assert_eq!(get_target_triple("linux", "aarch64"), Ok("linux-aarch64".to_string()));
    assert_eq!(get_target_triple("macos", "aarch64"), Ok("macos-aarch64".to_string()));
    let e = get_target_triple("windows", "x86_64").unwrap_err();
    assert_eq!(e, RemoteError::UnsupportedPlatform("windows".to_string(), "x86_64".to_string()));
    assert_eq!(e.message(), "Unsupported OS/Architecture: windows-x86_64");
}

#[test]
fn download_and_index_addresses() {
    assert_eq!(
        download_url("8.3.1", "cli", "linux-x86_64"),
        "https://dl.static-php.dev/static-php-cli/bulk/php-8.3.1-cli-linux-x86_64.tar.gz"
    );
    assert_eq!(index_url(), "https://dl.static-php.dev/static-php-cli/bulk/?format=json");
}

#[test]
fn listing_entries_parse_version_and_package() {
    assert_eq!(
        parse_listing_entry("php-8.3.1-cli-linux-x86_64.tar.gz", false, "linux-x86_64"),
        Some(("8.3.1".to_string(), "cli".to_string()))
    );
    assert_eq!(
        parse_listing_entry("php-8.4.0RC1-fpm-linux-x86_64.tar.gz", false, "linux-x86_64"),
        Some(("8.4.0RC1".to_string(), "fpm".to_string()))
    );
    assert_eq!(parse_listing_entry("php-8.3.1-cli-linux-x86_64.tar.gz", true, "linux-x86_64"), None);
    assert_eq!(parse_listing_entry("php-8.3.1-cli-macos-x86_64.tar.gz", false, "linux-x86_64"), None);
    assert_eq!(parse_listing_entry("php-cli-linux-x86_64.tar.gz", false, "linux-x86_64"), None);
    assert_eq!(parse_listing_entry("README.md", false, "linux-x86_64"), None);
}

#[test]
fn download_name_reads_back_from_the_listing() {
    let url = download_url("8.2.28", "micro", "macos-aarch64");
    let name = url.rsplit('/').next().unwrap();
    assert_eq!(
        parse_listing_entry(name, false, "macos-aarch64"),
        Some(("8.2.28".to_string(), "micro".to_string()))
    );
}

#[test]
fn listing_groups_packages_and_sorts_by_semver() {
    let files = vec![
        file("php-8.10.0-cli-linux-x86_64.tar.gz"),
        file("php-8.9.1-fpm-linux-x86_64.tar.gz"),
        file("php-8.9.1-cli-linux-x86_64.tar.gz"),
        file("php-8.9.1-cli-macos-x86_64.tar.gz"),
        ("php-8.9.2-cli-linux-x86_64.tar.gz".to_string(), true),
        file("index.html"),
    ];
    assert_eq!(
        versions_from_listing(&files, "linux-x86_64"),
        listing(&[("8.9.1", &["cli", "fpm"]), ("8.10.0", &["cli"])])
    );
    assert!(versions_from_listing(&[], "linux-x86_64").is_empty());
}

#[test]
fn remote_resolution_of_each_request_kind() {
    let versions = listing(&[("8.3.1", &["cli"]), ("8.3.5", &["cli"]), ("8.4.2", &["cli"])]);
    assert_eq!(resolve_version(&versions, "latest"), Ok("8.4.2".to_string()));
    assert_eq!(resolve_version(&versions, "8.3.1"), Ok("8.3.1".to_string()));
    assert_eq!(resolve_version(&versions, "8.3"), Ok("8.3.5".to_string()));
    assert_eq!(resolve_version(&[], "latest"), Err(RemoteError::NoVersions));
    assert_eq!(RemoteError::NoVersions.message(), "No versions available from remote");
    assert_eq!(resolve_version(&versions, "8.31"), Err(RemoteError::NoMatch("8.31".to_string())));
}

#[test]
fn cache_path_is_per_target() {
    assert_eq!(get_cache_path("/p", "linux-x86_64"), "/p/remote_cache-linux-x86_64.json");
}

#[test]
fn cache_round_trips_within_a_day() {
    let versions = listing(&[("8.9.6", &["cli", "fpm"]), ("8.9.7", &["cli"])]);
    let text = encode_cache(&versions).unwrap();
    assert_eq!(text, "[[\"8.9.6\",[\"cli\",\"fpm\"]],[\"8.9.7\",[\"cli\"]]]");
    assert_eq!(cached_versions(&text, 0), Some(versions.clone()));
    assert_eq!(cached_versions(&text, CACHE_MAX_AGE_SECS - 1), Some(versions));
    assert_eq!(cached_versions(&text, CACHE_MAX_AGE_SECS), None);
    assert_eq!(cached_versions("not json", 0), None);
}
