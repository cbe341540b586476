use pvm::fs::{
    build_minor_table, contains_name, get_aliased_versions, get_current_version, get_default_version,
    get_default_version_path, get_env_update_path, get_installed_packages, get_pvm_dir,
    get_version_bin_dir, get_version_php_ini_path, get_versions_dir, is_version_installed,
    is_whitespace, keep_outside, list_installed_versions, minor_of, path_without_versions,
    resolve_local_version, trim_str, try_resolve_local_version, DirError, ResolveError, VersionDir,
};

fn dir(name: &str, php: bool, fpm: bool, micro: bool) -> VersionDir {
    VersionDir {
        name: name.to_string(),
        is_dir: true,
        has_php: php,
        has_fpm: fpm,
        has_micro: micro,
    }
}

fn names(v: &[&str]) -> Vec<String> {
    v.iter().map(|s| s.to_string()).collect()
}

#[test]
fn test_get_pvm_dir_with_env_override() {
    assert_eq!(get_pvm_dir(Some("/tmp/custom"), Some("/home/u/.local/share")), Ok("/tmp/custom".to_string()));
}

#[test]
fn pvm_dir_defaults_under_local_data_dir() {
    assert_eq!(
        get_pvm_dir(None, Some("/home/u/.local/share")),
        Ok("/home/u/.local/share/pvm".to_string())
    );
    assert_eq!(get_pvm_dir(None, None), Err(DirError::NoDataDir));
    assert_eq!(DirError::NoDataDir.message(), "Could not find local data directory");
}

#[test]
fn locations_under_pvm_dir() {
    assert_eq!(get_versions_dir("/p"), "/p/versions");
    assert_eq!(get_versions_dir("/p/"), "/p/versions");
    assert_eq!(get_version_bin_dir("/p", "8.3.1"), "/p/versions/8.3.1/bin");
    assert_eq!(get_version_php_ini_path("/p", "8.3.30"), "/p/versions/8.3.30/php.ini");
    assert_eq!(get_default_version_path("/p"), "/p/default");
    assert_eq!(get_env_update_path(None, "/p"), "/p/.env_update");
    assert_eq!(get_env_update_path(Some("/tmp/custom_env_update"), "/p"), "/tmp/custom_env_update");
}

#[test]
fn trim_follows_unicode_whitespace() {
    assert_eq!(trim_str("  8.3.1\n"), "8.3.1");
    assert_eq!(trim_str("\t\u{a0}x y\u{3000}"), "x y");
    assert_eq!(trim_str("   "), "");
    assert!(is_whitespace('\u{2028}'));
    assert!(!is_whitespace('x'));
}

#[test]
fn default_version_is_trimmed_file_contents() {
    assert_eq!(get_default_version(Some("8.9.6\n")), Some("8.9.6".to_string()));
    assert_eq!(get_default_version(Some("  \n")), None);
    assert_eq!(get_default_version(None), None);
}

#[test]
fn current_version_comes_from_multishell_path() {
    assert_eq!(get_current_version(Some("/p/versions/8.9.6/bin")), "8.9.6");
    assert_eq!(get_current_version(Some("/p/versions/8.9.6/bin/")), "8.9.6");
    assert_eq!(get_current_version(Some("bin")), "system");
    assert_eq!(get_current_version(None), "system");
}

#[test]
fn path_without_versions_drops_every_pvm_entry() {
    let path = "/p/versions/8.9.6/bin:/p/versions/8.9.6/bin:/p/versions/8.8.1/bin:/opt/tool-a/bin:/opt/tool-b/bin";
    assert_eq!(
        path_without_versions("/p", path),
        names(&["/opt/tool-a/bin", "/opt/tool-b/bin"])
    );
    assert_eq!(path_without_versions("/p", ""), names(&[""]));
    // A sibling whose name merely starts like the versions directory stays.
    assert_eq!(path_without_versions("/p", "/p/versions2/bin"), names(&["/p/versions2/bin"]));
    assert_eq!(keep_outside(&names(&["/a", "/v/x"]), "/v"), names(&["/a"]));
}

#[test]
fn installed_packages_follow_binaries() {
    let dirs = vec![dir("8.3.1", true, true, false), dir("8.4.0", false, true, true)];
    assert_eq!(get_installed_packages(&dirs, "8.3.1"), names(&["cli", "fpm"]));
    assert_eq!(get_installed_packages(&dirs, "8.4.0"), names(&["fpm", "micro"]));
    assert!(get_installed_packages(&dirs, "9.0.0").is_empty());
    assert!(is_version_installed(&dirs, "8.3.1"));
    assert!(!is_version_installed(&dirs, "8.4.0"));
    assert!(!is_version_installed(&dirs, "9.0.0"));
}

#[test]
fn test_list_installed_versions() {
    let mut dirs = vec![dir("8.3.1", true, false, false), dir("8.2.14", true, false, false), dir("8.4.0", true, false, false)];
    // A file, not a directory: ignored.
    dirs.push(VersionDir { name: "ignore.txt".to_string(), is_dir: false, has_php: false, has_fpm: false, has_micro: false });
    assert_eq!(list_installed_versions(&dirs), names(&["8.2.14", "8.3.1", "8.4.0"]));
}

#[test]
fn installed_versions_sort_by_semver_not_text() {
    let dirs = vec![dir("8.10.0", true, false, false), dir("8.9.1", true, false, false), dir("odd", true, false, false)];
    assert_eq!(list_installed_versions(&dirs), names(&["odd", "8.9.1", "8.10.0"]));
}

#[test]
fn minor_of_takes_two_pieces() {
    assert_eq!(minor_of("8.3.1"), Some("8.3".to_string()));
    assert_eq!(minor_of("8.3"), Some("8.3".to_string()));
    assert_eq!(minor_of("8"), None);
}

#[test]
fn minor_table_keeps_newest_patch_per_line() {
    let t = build_minor_table(&names(&["8.2.1", "8.3.1", "8.3.5", "8.4.2"]));
    assert_eq!(
        t,
        vec![
            ("8.2".to_string(), "8.2.1".to_string()),
            ("8.3".to_string(), "8.3.5".to_string()),
            ("8.4".to_string(), "8.4.2".to_string())
        ]
    );
}

#[test]
fn aliased_versions_list_latest_then_lines() {
    let installed = names(&["8.3.1", "8.3.5", "8.4.2"]);
    let dirs = vec![dir("8.3.1", true, false, false), dir("8.3.5", true, true, false), dir("8.4.2", false, true, false)];
    let items = get_aliased_versions(&installed, &dirs);
    let shown: Vec<(String, String)> = items.iter().map(|i| (i.display.clone(), i.version.clone())).collect();
    assert_eq!(
        shown,
        vec![
            ("latest (8.4.2)".to_string(), "8.4.2".to_string()),
            ("8.3 (8.3.5)".to_string(), "8.3.5".to_string()),
            ("8.3.1".to_string(), "8.3.1".to_string()),
            ("8.3.5".to_string(), "8.3.5".to_string()),
            ("8.4 (8.4.2)".to_string(), "8.4.2".to_string()),
            ("8.4.2".to_string(), "8.4.2".to_string()),
        ]
    );
    assert_eq!(items[1].packages, names(&["cli", "fpm"]));
    assert!(get_aliased_versions(&[], &[]).is_empty());
}

#[test]
fn local_resolution_prefers_exact_then_newest_patch() {
    let installed = names(&["8.3.1", "8.3.5", "8.4.2"]);
    assert_eq!(try_resolve_local_version(&installed, "latest"), Some("8.4.2".to_string()));
    assert_eq!(try_resolve_local_version(&installed, "8.3.1"), Some("8.3.1".to_string()));
    assert_eq!(try_resolve_local_version(&installed, "8.3"), Some("8.3.5".to_string()));
    assert_eq!(try_resolve_local_version(&installed, "8"), Some("8.4.2".to_string()));
    assert_eq!(try_resolve_local_version(&installed, "8.31"), None);
    assert_eq!(try_resolve_local_version(&[], "latest"), None);
    assert!(contains_name(&installed, "8.4.2"));
    assert!(!contains_name(&installed, "8.4"));
}

#[test]
fn alias_line_resolves_to_its_newest_patch() {
    // The version the `8.3 (8.3.5)` alias stands for is what `8.3` resolves to.
    let installed = names(&["8.3.1", "8.3.5", "8.4.2"]);
    let dirs = vec![dir("8.3.1", true, false, false), dir("8.3.5", true, false, false), dir("8.4.2", true, false, false)];
    for item in get_aliased_versions(&installed, &dirs) {
        if let Some(line) = item.display.strip_suffix(&format!(" ({})", item.version)) {
            if line != "latest" {
                assert_eq!(try_resolve_local_version(&installed, line), Some(item.version.clone()));
            }
        }
    }
}

#[test]
fn resolve_errors_name_the_request() {
    assert_eq!(resolve_local_version(&[], "latest"), Err(ResolveError::NothingInstalled));
    let e = resolve_local_version(&[], "9.9.9").unwrap_err();
    assert_eq!(e, ResolveError::NotInstalled("9.9.9".to_string()));
    assert_eq!(e.message(), "PHP 9.9.9 is not installed locally.");
    assert_eq!(ResolveError::NothingInstalled.message(), "No PHP versions are currently installed.");
}
