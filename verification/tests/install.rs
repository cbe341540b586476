use pvm::commands::install::{
    already_installed_message, available_packages, install_action, install_follow_up, install_is_noop,
    install_request, packages_from_selection, pick_entries, pick_outcome, removes_on_failure,
    select_packages, FollowUp, InstallAction, InstallError, PackageSelection, PickKind, PickOutcome,
};

fn names(v: &[&str]) -> Vec<String> {
    v.iter().map(|s| s.to_string()).collect()
}

fn listing(v: &[(&str, &[&str])]) -> Vec<(String, Vec<String>)> {
    v.iter()
        .map(|(a, ps)| (a.to_string(), ps.iter().map(|p| p.to_string()).collect()))
        .collect()
}

#[test]
fn test_install_no_version_non_tty_fails() {
    let e = install_request(None, false).unwrap_err();
    assert!(e.message().contains("No version given"));
    assert_eq!(install_request(None, true), Ok(None));
    assert_eq!(install_request(Some("8.3"), false), Ok(Some("8.3".to_string())));
}

#[test]
fn test_install_packages_flag_rejects_unavailable() {
    let r = select_packages("8.9.7", &names(&["cli"]), &names(&["fpm"]), &[], false, false);
    let e = r.unwrap_err();
    assert!(e.message().contains("Package 'fpm' is not available for PHP 8.9.7"));
    assert_eq!(
        e.message(),
        "Package 'fpm' is not available for PHP 8.9.7 (available: cli)"
    );
}

#[test]
fn test_install_non_tty_without_cli_package_fails() {
    let r = select_packages("8.9.7", &names(&["fpm"]), &[], &[], false, false);
    let e = r.unwrap_err();
    assert_eq!(
        e,
        InstallError::NoDefaultPackage("8.9.7".to_string(), "fpm".to_string())
    );
    assert!(e.message().contains("Use --packages"));
}

#[test]
fn test_install_already_installed_is_idempotent_non_tty() {
    let installed = names(&["cli"]);
    assert!(install_is_noop(&[], false, &installed));
    assert!(already_installed_message("8.9.7", &installed).contains("already installed [cli]"));
    // A terminal or explicit packages do not short-circuit.
    assert!(!install_is_noop(&[], true, &installed));
    assert!(!install_is_noop(&names(&["fpm"]), false, &installed));
    assert!(!install_is_noop(&[], false, &names(&["fpm"])));
}

#[test]
fn explicit_packages_are_kept_as_given() {
    let r = select_packages("8.3.1", &names(&["cli", "fpm", "micro"]), &names(&["micro", "cli"]), &[], false, true);
    assert_eq!(r, Ok(PackageSelection::Chosen(names(&["micro", "cli"]))));
}

#[test]
fn yes_or_no_terminal_selects_cli() {
    let r = select_packages("8.3.1", &names(&["cli", "fpm"]), &[], &[], true, true);
    assert_eq!(r, Ok(PackageSelection::Chosen(names(&["cli"]))));
    let r = select_packages("8.3.1", &names(&["cli", "fpm"]), &[], &[], false, false);
    assert_eq!(r, Ok(PackageSelection::Chosen(names(&["cli"]))));
}

#[test]
fn terminal_preselects_missing_packages() {
    let fresh = select_packages("8.3.1", &names(&["cli", "fpm", "micro"]), &[], &[], false, true);
    assert_eq!(fresh, Ok(PackageSelection::Ask(vec![true, false, false])));
    let again = select_packages("8.3.1", &names(&["cli", "fpm", "micro"]), &[], &names(&["cli"]), false, true);
    assert_eq!(again, Ok(PackageSelection::Ask(vec![false, true, true])));
}

#[test]
fn selection_indices_pick_packages() {
    let avail = names(&["cli", "fpm", "micro"]);
    assert_eq!(packages_from_selection(&avail, &[2, 0]), Some(names(&["micro", "cli"])));
    assert_eq!(packages_from_selection(&avail, &[]), None);
}

#[test]
fn available_packages_of_the_resolved_version() {
    let versions = listing(&[("8.3.1", &["cli", "fpm"]), ("8.3.5", &["cli"])]);
    assert_eq!(available_packages(&versions, "8.3.1"), Ok(names(&["cli", "fpm"])));
    assert_eq!(
        available_packages(&versions, "8.4.0"),
        Err(InstallError::NoPackages("8.4.0".to_string()))
    );
    let bare = listing(&[("8.2.0", &[])]);
    assert_eq!(available_packages(&bare, "8.2.0"), Err(InstallError::NoPackages("8.2.0".to_string())));
    assert_eq!(InstallError::NoPackages("8.4.0".to_string()).message(), "No packages found for PHP 8.4.0");
}

#[test]
fn follow_up_after_installing() {
    let cli = names(&["cli"]);
    let fpm = names(&["fpm"]);
    assert_eq!(install_follow_up(false, &cli, false, false), FollowUp::Return);
    assert_eq!(install_follow_up(false, &fpm, false, false), FollowUp::CliMissing);
    assert_eq!(install_follow_up(true, &cli, true, false), FollowUp::OfferUse);
    assert_eq!(install_follow_up(true, &cli, false, true), FollowUp::OfferUse);
    assert_eq!(install_follow_up(true, &cli, false, false), FollowUp::ReturnWithHint);
    assert_eq!(install_follow_up(true, &fpm, true, true), FollowUp::CliMissing);
}

#[test]
fn failed_install_keeps_existing_directory() {
    assert!(removes_on_failure(false));
    assert!(!removes_on_failure(true));
}

#[test]
fn picker_lists_latest_lines_divider_then_versions() {
    let versions = listing(&[("8.3.1", &["cli"]), ("8.3.5", &["cli", "fpm"]), ("8.4.2", &["cli"])]);
    let entries = pick_entries(&versions, &names(&["8.3.5"]));
    let kinds: Vec<PickKind> = entries.iter().map(|e| e.kind).collect();
    assert_eq!(
        kinds,
        vec![
            PickKind::Latest,
            PickKind::Line,
            PickKind::Line,
            PickKind::Divider,
            PickKind::Version,
            PickKind::Version,
            PickKind::Version
        ]
    );
    let labels: Vec<&str> = entries.iter().map(|e| e.label.as_str()).collect();
    assert_eq!(labels, vec!["latest (8.4.2)", "8.4 (8.4.2)", "8.3 (8.3.5)", "---", "8.4.2", "8.3.5", "8.3.1"]);
    let targets: Vec<&str> = entries.iter().map(|e| e.target.as_str()).collect();
    assert_eq!(targets, vec!["8.4.2", "8.4.2", "8.3.5", "", "8.4.2", "8.3.5", "8.3.1"]);
    assert!(entries[5].installed);
    assert!(!entries[4].installed);
    assert_eq!(entries[5].packages, names(&["cli", "fpm"]));
    assert!(pick_entries(&[], &[]).is_empty());
}

#[test]
fn picking_decides_install_or_nothing() {
    let installed = names(&["8.3.5"]);
    assert_eq!(pick_outcome("", &installed, &[]), PickOutcome::Invalid);
    assert_eq!(pick_outcome("8.4.2", &installed, &[]), PickOutcome::Install("8.4.2".to_string()));
    assert_eq!(pick_outcome("8.3.5", &installed, &[]), PickOutcome::AlreadyInstalled("8.3.5".to_string()));
    assert_eq!(
        pick_outcome("8.3.5", &installed, &names(&["fpm"])),
        PickOutcome::Install("8.3.5".to_string())
    );
}

#[test]
fn install_fetches_in_order_then_follows_up() {
    let sel = names(&["cli", "fpm"]);
    assert_eq!(install_action(&sel, &[], false, true, false, true), InstallAction::Fetch("cli".to_string()));
    assert_eq!(install_action(&sel, &[true], false, true, false, true), InstallAction::Fetch("fpm".to_string()));
    assert_eq!(install_action(&sel, &[true, true], false, true, false, true), InstallAction::Finish(FollowUp::OfferUse));
    assert_eq!(install_action(&sel, &[true, true], false, false, false, false), InstallAction::Finish(FollowUp::Return));
    let fpm = names(&["fpm"]);
    assert_eq!(install_action(&fpm, &[true], false, true, true, false), InstallAction::Finish(FollowUp::CliMissing));
}

#[test]
fn a_failed_fetch_ends_the_install() {
    let sel = names(&["cli", "fpm", "micro"]);
    assert_eq!(
        install_action(&sel, &[true, false], false, true, false, true),
        InstallAction::Abort { package: "fpm".to_string(), remove_dir: true }
    );
    // A pre-existing installation is kept.
    assert_eq!(
        install_action(&sel, &[false], true, true, false, true),
        InstallAction::Abort { package: "cli".to_string(), remove_dir: false }
    );
    // Later outcomes do not change the answer once a fetch failed.
    assert_eq!(
        install_action(&sel, &[true, false, true, true], false, true, false, true),
        InstallAction::Abort { package: "fpm".to_string(), remove_dir: true }
    );
}
