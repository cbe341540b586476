use pvm::commands::cache::cache_files;
use pvm::commands::cache::removed_message;
use pvm::commands::default_cmd::{cleared_message, default_action, default_labels, set_message, shown_default, DefaultAction};
use pvm::commands::env::{env_output, shell_for};
use pvm::commands::exec_cmd::{exec_path, exit_code};
use pvm::commands::init::{build_init_options, init_gate, major_minor, InitError};
use pvm::commands::ls::{list_is_picker, list_rows, ls_pick, LsPick};
use pvm::commands::ls_remote::{filter_by_prefix, remote_listing, remote_rows, RemoteListing};
use pvm::commands::prune::{prune_plan, prune_refusal_message, repoint_default};
use pvm::commands::uninstall::{default_cleared_message, needs_confirmation, uninstall_plan, UninstallPlan};
use pvm::commands::use_cmd::{
    activation_script, missing_step, not_installed_message, picker_gate, refusal_message, save_prompt,
    use_request, ActivateOpts, MissingStep, SavePrompt, UseRequest,
};
use pvm::commands::which_cmd::{which_php, WhichError};
use pvm::fs::{get_aliased_versions, get_version_bin_dir, path_without_versions, resolve_local_version, try_resolve_local_version, ResolveError, VersionDir};
use pvm::prompt::{approval, Approval};
use pvm::shell::{Bash, Fish, Shell, ShellKind};

const OTHER_PATH: &str = "/opt/tool-a/bin:/opt/tool-b/bin";

fn names(v: &[&str]) -> Vec<String> {
    v.iter().map(|s| s.to_string()).collect()
}

fn listing(v: &[(&str, &[&str])]) -> Vec<(String, Vec<String>)> {
    v.iter()
        .map(|(a, ps)| (a.to_string(), ps.iter().map(|p| p.to_string()).collect()))
        .collect()
}

fn cli_dir(name: &str) -> VersionDir {
    VersionDir { name: name.to_string(), is_dir: true, has_php: true, has_fpm: false, has_micro: false }
}

fn fpm_dir(name: &str) -> VersionDir {
    VersionDir { name: name.to_string(), is_dir: true, has_php: false, has_fpm: true, has_micro: false }
}

// ---------------------------------------------------------------- ls-remote

#[test]
fn test_ls_remote_plain_listing() {
    let versions = listing(&[("8.9.6", &["cli", "fpm"]), ("8.9.7", &["cli"])]);
    let rows = remote_rows(&versions, &names(&["8.9.6"]));
    assert_eq!(format!("{} [{}]", rows[1].version, rows[1].packages), "8.9.7 [cli]");
    assert!(!rows[1].installed);
    assert_eq!(rows[0].version, "8.9.6");
    assert!(rows[0].installed);
    assert_eq!(rows[0].packages, "cli, fpm");
}

#[test]
fn test_ls_remote_prefix_filter() {
    let versions = listing(&[("8.8.1", &["cli"]), ("8.9.7", &["cli"])]);
    let kept = filter_by_prefix(&versions, Some("8.9"));
    assert_eq!(kept, listing(&[("8.9.7", &["cli"])]));
    assert_eq!(filter_by_prefix(&versions, None), versions);
    // "8.1" is not a prefix of "8.10.0".
    let v = listing(&[("8.1.3", &["cli"]), ("8.10.0", &["cli"])]);
    assert_eq!(filter_by_prefix(&v, Some("8.1")), listing(&[("8.1.3", &["cli"])]));
    assert_eq!(filter_by_prefix(&v, Some("8.1.3")), listing(&[("8.1.3", &["cli"])]));
}

#[test]
fn ls_remote_reports_nothing_found_or_the_selected_rows() {
    let versions = listing(&[("8.8.1", &["cli"]), ("8.9.7", &["cli", "fpm"])]);
    assert_eq!(remote_listing(&versions, Some("7"), &[]), RemoteListing::NothingFound);
    assert_eq!(remote_listing(&[], None, &[]), RemoteListing::NothingFound);
    match remote_listing(&versions, Some("8.9"), &names(&["8.9.7"])) {
        RemoteListing::Rows(rows) => {
            assert_eq!(rows.len(), 1);
            assert_eq!(rows[0].version, "8.9.7");
            assert_eq!(rows[0].packages, "cli, fpm");
            assert!(rows[0].installed);
        }
        RemoteListing::NothingFound => panic!("8.9.7 matches the prefix"),
    }
}

// ---------------------------------------------------------------- default / env

#[test]
fn test_default_set_show_and_env_activation() {
    let installed = names(&["8.9.6"]);
    let dirs = vec![cli_dir("8.9.6")];
    let action = default_action(Some("8.9.6"), &installed, false).unwrap();
    assert_eq!(action, DefaultAction::MakeDefault("8.9.6".to_string()));
    assert!(set_message("8.9.6").contains("Default version set to 8.9.6"));
    assert_eq!(default_action(None, &installed, false), Ok(DefaultAction::Show));
    assert!(shown_default(Some("8.9.6")).contains("8.9.6"));
    let out = env_output(&Bash, "/p", Some("8.9.6"), &dirs, &[]);
    assert!(out.script.contains("export PVM_MULTISHELL_PATH="));
    assert!(out.script.contains("versions/8.9.6/bin"));
    assert_eq!(default_action(Some("system"), &installed, false), Ok(DefaultAction::Clear));
    assert!(cleared_message().contains("Default cleared"));
    let out = env_output(&Bash, "/p", None, &dirs, &[]);
    assert!(!out.script.contains("PVM_MULTISHELL_PATH"));
}

#[test]
fn test_default_rejects_missing_version() {
    let e = default_action(Some("9.9.9"), &[], false).unwrap_err();
    assert!(e.message().contains("not installed locally"));
}

#[test]
fn default_picker_marks_current_default() {
    let installed = names(&["8.3.1", "8.4.2"]);
    let dirs = vec![cli_dir("8.3.1"), cli_dir("8.4.2")];
    let items = get_aliased_versions(&installed, &dirs);
    let labels = default_labels(&items, Some("8.4.2"));
    assert_eq!(labels[0], ("latest (8.4.2)".to_string(), true));
    assert_eq!(labels[1], ("8.3 (8.3.1)".to_string(), false));
    assert_eq!(shown_default(None), "none");
    assert_eq!(default_action(None, &installed, true), Ok(DefaultAction::Pick));
}

#[test]
fn test_env_warns_about_stale_default() {
    let out = env_output(&Bash, "/p", Some("8.9.6"), &[], &[]);
    assert!(!out.script.contains("PVM_MULTISHELL_PATH"));
    let warning = out.warning.unwrap();
    assert!(warning.contains("is not installed"));
    assert_eq!(warning, "pvm: default version 8.9.6 is not installed; run 'pvm default' to fix");
}

#[test]
fn test_env_bash() {
    let out = env_output(&Bash, "/p", None, &[], &[]);
    assert!(out.script.contains("export PVM_DIR="));
    assert!(out.script.contains("export PATH="));
    assert!(out.warning.is_none());
}

#[test]
fn env_activates_default_in_front_of_base_path() {
    let dirs = vec![cli_dir("8.9.6")];
    let rest = names(&["/usr/bin"]);
    let out = env_output(&Fish, "/p", Some("8.9.6"), &dirs, &rest);
    assert!(out.script.starts_with("set -gx PVM_DIR '/p'\n"));
    assert!(out
        .script
        .ends_with("set -gx PVM_MULTISHELL_PATH '/p/versions/8.9.6/bin'\nset -gx PATH '/p/versions/8.9.6/bin' '/usr/bin'\n"));
}

#[test]
fn shell_override_takes_known_names_only() {
    assert_eq!(shell_for(Some("fish"), "/bin/bash"), ShellKind::Fish);
    assert_eq!(shell_for(Some("zsh"), "/bin/bash"), ShellKind::Zsh);
    assert_eq!(shell_for(Some("bash"), "/usr/bin/fish"), ShellKind::Bash);
    assert_eq!(shell_for(Some("tcsh"), "/usr/bin/fish"), ShellKind::Fish);
    assert_eq!(shell_for(None, "/bin/zsh"), ShellKind::Zsh);
}

// ---------------------------------------------------------------- use

#[test]
fn test_use_missing_version_non_tty_fails_without_yes() {
    assert_eq!(try_resolve_local_version(&[], "8.9"), None);
    assert_eq!(missing_step(false, false, false), MissingStep::Refuse);
    assert!(refusal_message("8.9").contains("or pass --yes"));
}

#[test]
fn test_use_silent_skips_missing_version() {
    assert_eq!(try_resolve_local_version(&[], "8.3"), None);
    assert_eq!(missing_step(true, false, false), MissingStep::Skip);
    assert_eq!(missing_step(true, true, true), MissingStep::Skip);
}

#[test]
fn missing_version_with_yes_or_terminal() {
    assert_eq!(missing_step(false, true, false), MissingStep::Install);
    assert_eq!(missing_step(false, false, true), MissingStep::Ask);
}

#[test]
fn test_use_no_version_non_tty_fails_with_hint() {
    assert_eq!(use_request(None, None), UseRequest::Pick);
    let e = picker_gate(false).unwrap_err();
    assert!(e.contains("No version given"));
    assert_eq!(picker_gate(true), Ok(()));
}

#[test]
fn test_use_php_version_file() {
    assert_eq!(use_request(None, Some("8.3.1\n")), UseRequest::FromFile("8.3.1".to_string()));
    let installed = names(&["8.3.1"]);
    assert_eq!(try_resolve_local_version(&installed, "8.3.1"), Some("8.3.1".to_string()));
}

#[test]
fn use_request_kinds() {
    assert_eq!(use_request(Some("system"), Some("8.3")), UseRequest::System);
    assert_eq!(use_request(Some("8.3"), Some("8.4")), UseRequest::Given("8.3".to_string()));
    assert_eq!(use_request(None, Some(" system \n")), UseRequest::System);
    assert_eq!(use_request(None, Some("  \n")), UseRequest::Pick);
}

#[test]
fn test_use_system_writes_deactivation_env_file() {
    let active_bin = "/p/versions/8.9.6/bin";
    let rest = path_without_versions("/p", &format!("{}:{}", active_bin, OTHER_PATH));
    let content = Bash.deactivate(&rest);
    assert!(content.contains("export PVM_MULTISHELL_PATH=''"));
    assert!(content.contains(&format!("export PATH='{}'", OTHER_PATH)), "{}", content);
    assert!(!content.contains("versions"), "{}", content);
}

#[test]
fn test_use_does_not_stack_duplicate_path_entries() {
    let bin_896 = get_version_bin_dir("/p", "8.9.6");
    let bin_881 = get_version_bin_dir("/p", "8.8.1");
    let dirty_path = format!("{}:{}:{}:{}", bin_896, bin_896, bin_881, OTHER_PATH);
    let rest = path_without_versions("/p", &dirty_path);
    let content = activation_script(&Bash, &bin_896, &rest);
    let path_line = content.lines().find(|l| l.starts_with("export PATH=")).expect("no PATH line");
    assert_eq!(
        path_line.matches(&*bin_896).count(),
        1,
        "active version listed more than once: {}",
        path_line
    );
    assert!(!path_line.contains(&*bin_881), "stale version survived: {}", path_line);
    assert!(path_line.contains(OTHER_PATH), "{}", path_line);
}

#[test]
fn switching_twice_equals_switching_once() {
    let start = format!("/p/versions/8.8.1/bin:{}", OTHER_PATH);
    let a = get_version_bin_dir("/p", "8.9.6");
    let b = get_version_bin_dir("/p", "8.3.1");
    let first = Bash.path(&a, &path_without_versions("/p", &start));
    let value = first.strip_prefix("export PATH='").unwrap().strip_suffix('\'').unwrap();
    let second = Bash.path(&b, &path_without_versions("/p", value));
    assert_eq!(second, Bash.path(&b, &path_without_versions("/p", &start)));
    assert_eq!(second, format!("export PATH='/p/versions/8.3.1/bin:{}'", OTHER_PATH));
}

#[test]
fn save_prompt_offers() {
    assert_eq!(save_prompt(true, false, None, "8.3.1"), SavePrompt::Save(None));
    assert_eq!(save_prompt(true, false, Some("8.2"), "8.3.1"), SavePrompt::Save(Some("8.2".to_string())));
    assert_eq!(save_prompt(true, false, Some("8.3.1"), "8.3.1"), SavePrompt::Nothing);
    assert_eq!(save_prompt(false, false, Some("8.3"), "8.3.1"), SavePrompt::Apply("8.3".to_string()));
    assert_eq!(save_prompt(false, false, Some("8.3.1"), "8.3.1"), SavePrompt::Nothing);
    assert_eq!(save_prompt(false, false, None, "8.3.1"), SavePrompt::Nothing);
    // The cd-hook never asks.
    assert_eq!(save_prompt(false, true, Some("8.3"), "8.3.1"), SavePrompt::Nothing);
    assert_eq!(save_prompt(true, true, None, "8.3.1"), SavePrompt::Nothing);
}

#[test]
fn activate_options_and_messages() {
    assert_eq!(
        ActivateOpts::picker(true),
        ActivateOpts { offer_save: true, assume_yes: true, quiet: false }
    );
    assert_eq!(
        not_installed_message("8.3.1"),
        "PHP 8.3.1 is not installed. Run 'pvm install 8.3.1' first."
    );
}

// ---------------------------------------------------------------- ls

#[test]
fn test_ls_non_tty_prints_plain_list() {
    let dirs = vec![VersionDir { name: "8.9.6".to_string(), is_dir: true, has_php: true, has_fpm: true, has_micro: false }];
    let items = get_aliased_versions(&names(&["8.9.6"]), &dirs);
    let rows = list_rows(&items, "system");
    assert!(rows.iter().any(|r| r.display == "latest (8.9.6)"));
    assert!(rows.iter().any(|r| r.packages == "cli, fpm"));
    assert!(rows.iter().all(|r| !r.current));
    assert!(!list_is_picker(false, false));
    assert!(!list_is_picker(true, false));
    assert!(list_is_picker(true, true));
}

#[test]
fn test_ls_empty() {
    assert!(get_aliased_versions(&[], &[]).is_empty());
    assert!(list_rows(&[], "system").is_empty());
}

#[test]
fn list_marks_the_active_version() {
    let dirs = vec![cli_dir("8.3.1"), cli_dir("8.4.2")];
    let items = get_aliased_versions(&names(&["8.3.1", "8.4.2"]), &dirs);
    let rows = list_rows(&items, "8.3.1");
    let marked: Vec<&str> = rows.iter().filter(|r| r.current).map(|r| r.display.as_str()).collect();
    assert_eq!(marked, vec!["8.3 (8.3.1)", "8.3.1"]);
    assert_eq!(ls_pick(Some("8.3.1"), "8.3.1"), LsPick::AlreadyActive("8.3.1".to_string()));
    assert_eq!(ls_pick(Some("8.4.2"), "8.3.1"), LsPick::Switch("8.4.2".to_string()));
    assert_eq!(ls_pick(None, "8.3.1"), LsPick::Leave);
}

// ---------------------------------------------------------------- uninstall

#[test]
fn test_uninstall_not_installed() {
    let e = uninstall_plan(&[], "9.9.9", "system", None).unwrap_err();
    assert!(format!("Error: {}", e.message()).contains("Error: PHP 9.9.9 is not installed locally."));
}

#[test]
fn test_uninstall_clears_stale_default() {
    let plan = uninstall_plan(&names(&["8.9.6"]), "8.9.6", "system", Some("8.9.6")).unwrap();
    assert!(plan.clears_default);
    assert!(default_cleared_message(&plan.version).contains("default cleared"));
}

#[test]
fn test_uninstall_success() {
    let plan = uninstall_plan(&names(&["8.3.1"]), "8.3.1", "system", None).unwrap();
    assert_eq!(
        plan,
        UninstallPlan { version: "8.3.1".to_string(), is_current: false, clears_default: false }
    );
}

#[test]
fn uninstall_of_active_line_warns() {
    let plan = uninstall_plan(&names(&["8.3.1", "8.3.5"]), "8.3", "8.3.5", Some("8.3.1")).unwrap();
    assert_eq!(
        plan,
        UninstallPlan { version: "8.3.5".to_string(), is_current: true, clears_default: false }
    );
    assert!(needs_confirmation(false, true));
    assert!(!needs_confirmation(true, true));
    assert!(!needs_confirmation(false, false));
}

// ---------------------------------------------------------------- prune

#[test]
fn test_prune_non_tty_requires_yes() {
    let installed = names(&["8.9.1", "8.9.6"]);
    assert_eq!(approval(false, false), Approval::Refused);
    assert!(prune_refusal_message().contains("pass --yes"));
    assert_eq!(approval(true, false), Approval::Given);
    assert_eq!(prune_plan(&installed, "system"), vec![("8.9.1".to_string(), "8.9.6".to_string())]);
}

#[test]
fn test_prune_removes_superseded_versions() {
    let plan = prune_plan(&names(&["8.3.1", "8.3.5", "8.4.2"]), "system");
    assert_eq!(plan, vec![("8.3.1".to_string(), "8.3.5".to_string())]);
}

#[test]
fn test_prune_keeps_active_version() {
    let plan = prune_plan(&names(&["8.3.1", "8.3.5", "8.4.2"]), "8.3.1");
    assert!(plan.is_empty());
}

#[test]
fn test_prune_nothing_to_prune() {
    assert!(prune_plan(&names(&["8.3.5", "8.4.2"]), "system").is_empty());
}

#[test]
fn test_prune_repoints_default_version() {
    let plan = prune_plan(&names(&["8.3.1", "8.3.5", "8.4.2"]), "system");
    assert_eq!(repoint_default(&plan, "8.3.1"), Some("8.3.5".to_string()));
    assert_eq!(repoint_default(&plan, "8.4.2"), None);
}

#[test]
fn prune_keeps_newest_of_every_line() {
    let installed = names(&["8.2.1", "8.2.9", "8.3.1", "8.3.2", "8.3.7", "odd"]);
    let plan = prune_plan(&installed, "8.3.2");
    assert_eq!(
        plan,
        vec![
            ("8.2.1".to_string(), "8.2.9".to_string()),
            ("8.3.1".to_string(), "8.3.7".to_string())
        ]
    );
}

// ---------------------------------------------------------------- which / exec

#[test]
fn test_which_prints_path_of_active_version() {
    let r = which_php("/p", &names(&["8.9.6"]), &[cli_dir("8.9.6")], None, "8.9.6");
    assert_eq!(r, Ok("/p/versions/8.9.6/bin/php".to_string()));
}

#[test]
fn test_which_resolves_explicit_minor_version() {
    let r = which_php("/p", &names(&["8.9.6"]), &[cli_dir("8.9.6")], Some("8.9"), "system");
    assert_eq!(r, Ok("/p/versions/8.9.6/bin/php".to_string()));
}

#[test]
fn test_which_no_active_version_fails_with_hint() {
    let e = which_php("/p", &names(&["8.9.6"]), &[cli_dir("8.9.6")], None, "system").unwrap_err();
    assert!(e.message().contains("no pvm-managed PHP is active"));
}

#[test]
fn test_which_fpm_only_version_fails() {
    let e = which_php("/p", &names(&["8.9.6"]), &[fpm_dir("8.9.6")], Some("8.9.6"), "system").unwrap_err();
    assert_eq!(e, WhichError::NoCli("8.9.6".to_string()));
    assert!(e.message().contains("has no cli package"));
}

#[test]
fn test_exec_unknown_version_fails() {
    let e = resolve_local_version(&[], "9.9.9").unwrap_err();
    assert!(e.message().contains("not installed locally"));
}

#[test]
fn exec_path_and_exit_codes() {
    assert_eq!(exec_path("/p/versions/8.9.6/bin", "/usr/bin:/bin"), Some("/p/versions/8.9.6/bin:/usr/bin:/bin".to_string()));
    assert_eq!(exec_path("/bad:dir", "/usr/bin"), None);
    assert_eq!(exit_code(Some(7), None), 7);
    assert_eq!(exit_code(None, Some(15)), 143);
    assert_eq!(exit_code(None, None), 1);
}

// ---------------------------------------------------------------- cache

#[test]
fn test_cache_clear_removes_cache_file_and_is_idempotent() {
    let entries = vec![
        ("remote_cache-linux-x86_64.json".to_string(), true),
        ("versions".to_string(), false),
        ("default".to_string(), true),
    ];
    let files = cache_files(&entries);
    assert_eq!(files, names(&["remote_cache-linux-x86_64.json"]));
    assert!(removed_message(files.len() as u64).contains("Removed 1"));
    assert!(cache_files(&entries[1..]).is_empty());
    assert!(removed_message(0).contains("Removed 0"));
}

#[test]
fn cache_clear_twice_removes_nothing_the_second_time() {
    let entries = vec![
        ("remote_cache.json".to_string(), true),
        ("versions".to_string(), false),
        ("remote_cache-macos-aarch64.json".to_string(), true),
        ("remote_cache-dir.json".to_string(), false),
        ("notes.json".to_string(), true),
    ];
    let first = cache_files(&entries);
    assert_eq!(first, names(&["remote_cache.json", "remote_cache-macos-aarch64.json"]));
    assert_eq!(removed_message(first.len() as u64), "Removed 2 cached remote version index files");
    let kept: Vec<(String, bool)> =
        entries.iter().filter(|e| !first.contains(&e.0)).cloned().collect();
    assert_eq!(kept.len(), 3);
    assert_eq!(kept[0].0, "versions");
    assert_eq!(kept[1].0, "remote_cache-dir.json");
    assert_eq!(kept[2].0, "notes.json");
    let second = cache_files(&kept);
    assert!(second.is_empty());
    assert_eq!(removed_message(second.len() as u64), "Removed 0 cached remote version index files");
}

#[test]
fn test_cache_clear_tolerates_missing_pvm_dir() {
    assert!(cache_files(&[]).is_empty());
    assert_eq!(removed_message(0), "Removed 0 cached remote version index files");
    assert_eq!(removed_message(1), "Removed 1 cached remote version index file");
}

#[test]
fn cache_files_need_prefix_suffix_and_regular_file() {
    let entries = vec![
        ("remote_cache.json".to_string(), true),
        ("remote_cache-linux-x86_64.json".to_string(), false),
        ("remote_cache-x.json.bak".to_string(), true),
    ];
    assert_eq!(cache_files(&entries), names(&["remote_cache.json"]));
}

// ---------------------------------------------------------------- init

#[test]
fn test_init_non_tty_fails_with_hint() {
    let e = init_gate(false).unwrap_err();
    assert_eq!(e, InitError::NoTerminal);
    assert!(e.message().contains("requires a terminal"));
    assert_eq!(init_gate(true), Ok(()));
}

#[test]
fn init_offers_installed_lines_first() {
    let installed = names(&["8.2.3", "8.3.1", "8.3.4"]);
    let remote = listing(&[("8.1.0", &["cli"]), ("8.3.9", &["cli"]), ("8.4.2", &["cli"])]);
    let options = build_init_options(&installed, &remote);
    assert_eq!(
        options,
        vec![
            ("8.3".to_string(), true),
            ("8.2".to_string(), true),
            ("8.4".to_string(), false),
            ("8.1".to_string(), false)
        ]
    );
    assert!(build_init_options(&[], &[]).is_empty());
    assert_eq!(InitError::NoVersions.message(), "Could not retrieve PHP versions.");
}

#[test]
fn major_minor_of_versions() {
    assert_eq!(major_minor("8.4.18"), Some("8.4".to_string()));
    assert_eq!(major_minor("8"), None);
    assert_eq!(major_minor("8.4"), Some("8.4".to_string()));
}

#[test]
fn resolve_error_is_reported_through_which() {
    let e = which_php("/p", &[], &[], Some("latest"), "system").unwrap_err();
    assert_eq!(e, WhichError::Resolve(ResolveError::NothingInstalled));
}

#[test]
fn deactivation_without_other_entries_clears_path() {
    let rest = path_without_versions("/p", "/p/versions/8.9.6/bin");
    assert!(rest.is_empty());
    assert_eq!(Bash.deactivate(&rest), "export PVM_MULTISHELL_PATH=''\nexport PATH=''");
}

#[test]
fn patch_updates_only_on_a_terminal() {
    assert!(pvm::commands::use_cmd::offers_patch_update(true));
    assert!(!pvm::commands::use_cmd::offers_patch_update(false));
}

#[test]
fn test_uninstall_fpm_only_success() {
    // A version holding only php-fpm is still an installed directory.
    let dirs = vec![fpm_dir("8.3.1")];
    let installed = pvm::fs::list_installed_versions(&dirs);
    let plan = uninstall_plan(&installed, "8.3.1", "system", None).unwrap();
    assert_eq!(plan.version, "8.3.1");
}

#[test]
fn test_exec_runs_command_and_propagates_exit_code() {
    let installed = names(&["8.9.6"]);
    let version = resolve_local_version(&installed, "8.9.6").unwrap();
    let bin = get_version_bin_dir("/p", &version);
    assert_eq!(exec_path(&bin, "/usr/bin"), Some("/p/versions/8.9.6/bin:/usr/bin".to_string()));
    assert_eq!(exit_code(Some(7), None), 7);
}
