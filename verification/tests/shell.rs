use pvm::commands::use_cmd::activation_script;
use pvm::shell::{
    detect_shell, fish_path_words, fish_single_quote, join_path, posix_deactivate, posix_path,
    posix_set_env_var, posix_single_quote, Bash, Fish, Shell, ShellKind, Zsh,
};

fn rest() -> Vec<String> {
    vec!["/usr/bin".to_string(), "/bin".to_string()]
}

#[test]
fn test_bash_path_generation() {
    let bash = Bash;
    let path = "/home/user/.local/share/pvm/versions/8.3.1/bin";
    assert_eq!(
        bash.path(path, &rest()),
        "export PATH='/home/user/.local/share/pvm/versions/8.3.1/bin:/usr/bin:/bin'"
    );
}

#[test]
fn test_posix_path_drops_empty_entries() {
    // A trailing/duplicated ':' in PATH means "current directory" — never
    // let one survive into the emitted assignment.
    let bash = Bash;
    let out = bash.path(
        "/pvm/versions/8.3.1/bin",
        &["".to_string(), "/usr/bin".to_string(), "".to_string()],
    );
    assert_eq!(out, "export PATH='/pvm/versions/8.3.1/bin:/usr/bin'");
}

#[test]
fn test_path_does_not_reference_shell_path_var() {
    // The whole point of baking the value in: re-activating must replace the
    // previous pvm entry, not prepend on top of the live $PATH again.
    let bash = Bash;
    let out = bash.path("/pvm/versions/8.3.1/bin", &rest());
    assert!(!out.contains("$PATH"), "got: {}", out);
}

#[test]
fn test_bash_set_env() {
    let bash = Bash;
    assert_eq!(
        bash.set_env_var("PVM_MULTISHELL_PATH", "/some/path"),
        "export PVM_MULTISHELL_PATH='/some/path'"
    );
}

#[test]
fn test_bash_set_env_escapes_special_chars() {
    let bash = Bash;
    assert_eq!(
        bash.set_env_var("X", "evil$(whoami)`id`\"$PATH\"'quote"),
        "export X='evil$(whoami)`id`\"$PATH\"'\\''quote'"
    );
}

#[test]
fn test_zsh_path_generation() {
    let zsh = Zsh;
    let path = "/home/user/.local/share/pvm/versions/8.3.1/bin";
    assert_eq!(
        zsh.path(path, &rest()),
        "export PATH='/home/user/.local/share/pvm/versions/8.3.1/bin:/usr/bin:/bin'"
    );
}

#[test]
fn test_fish_path_generation() {
    let fish = Fish;
    let path = "/home/user/.local/share/pvm/versions/8.3.1/bin";
    assert_eq!(
        fish.path(path, &rest()),
        "set -gx PATH '/home/user/.local/share/pvm/versions/8.3.1/bin' '/usr/bin' '/bin'"
    );
}

#[test]
fn test_fish_set_env_escapes_special_chars() {
    let fish = Fish;
    assert_eq!(fish.set_env_var("X", "a'b\\c"), "set -gx X 'a\\'b\\\\c'");
}

#[test]
fn test_bash_deactivate_restores_filtered_path() {
    let bash = Bash;
    let out = bash.deactivate(&rest());
    assert_eq!(out, "export PVM_MULTISHELL_PATH=''\nexport PATH='/usr/bin:/bin'");
}

#[test]
fn test_fish_deactivate_restores_filtered_path() {
    let fish = Fish;
    let out = fish.deactivate(&rest());
    assert_eq!(
        out,
        "set -gx PVM_MULTISHELL_PATH ''\nset -gx PATH '/usr/bin' '/bin'"
    );
}

#[test]
fn test_bash_cd_hook_skips_unchanged_pwd() {
    // PROMPT_COMMAND fires after every command; without this guard each
    // prompt in a .php-version directory would fork a pvm process.
    let out = Bash.use_on_cd();
    assert!(out.contains("[[ \"$PWD\" == \"${__pvm_last_pwd-}\" ]] && return"));
}

#[test]
fn test_wrapper_fn_guards_against_duplicate_bin_entry() {
    // Re-sourcing the rc file (nested shells, `exec bash`) must not stack
    // another $PVM_DIR/bin entry onto PATH.
    assert!(Bash.wrapper_fn().contains("case \":$PATH:\" in"));
    assert!(Fish.wrapper_fn().contains("if not contains"));
}

#[test]
fn posix_quote_wraps_and_escapes() {
    assert_eq!(posix_single_quote(""), "''");
    assert_eq!(posix_single_quote("plain"), "'plain'");
    assert_eq!(posix_single_quote("it's"), "'it'\\''s'");
}

#[test]
fn fish_quote_escapes_backslash_and_quote() {
    assert_eq!(fish_single_quote(""), "''");
    assert_eq!(fish_single_quote("a\\b"), "'a\\\\b'");
    assert_eq!(fish_single_quote("it's"), "'it\\'s'");
}

#[test]
fn join_path_skips_empty_entries() {
    let entries = vec!["".to_string(), "/a".to_string(), "".to_string(), "/b".to_string()];
    assert_eq!(join_path("/bin", &entries), "/bin:/a:/b");
    assert_eq!(join_path("", &entries), "/a:/b");
    assert_eq!(join_path("", &[]), "");
}

#[test]
fn posix_helpers_render_exactly() {
    assert_eq!(posix_path("/x", &rest()), "export PATH='/x:/usr/bin:/bin'");
    assert_eq!(posix_set_env_var("A", "b c"), "export A='b c'");
    assert_eq!(
        posix_deactivate(&[]),
        "export PVM_MULTISHELL_PATH=''\nexport PATH=''"
    );
}

#[test]
fn fish_words_quote_each_non_empty_entry() {
    let entries = vec!["/a b".to_string(), "".to_string(), "it's".to_string()];
    assert_eq!(fish_path_words(&entries), "'/a b' 'it\\'s'");
}

#[test]
fn detect_shell_reads_shell_variable() {
    assert_eq!(detect_shell("/usr/bin/zsh"), ShellKind::Zsh);
    assert_eq!(detect_shell("/usr/local/bin/fish"), ShellKind::Fish);
    assert_eq!(detect_shell("/bin/bash"), ShellKind::Bash);
    assert_eq!(detect_shell(""), ShellKind::Bash);
    assert_eq!(detect_shell("/bin/sh"), ShellKind::Bash);
}

#[test]
fn shell_kind_dispatches_to_each_shell() {
    assert_eq!(ShellKind::Bash.path("/b", &rest()), Bash.path("/b", &rest()));
    assert_eq!(ShellKind::Zsh.use_on_cd(), Zsh.use_on_cd());
    assert_eq!(ShellKind::Fish.wrapper_fn(), Fish.wrapper_fn());
    assert_eq!(ShellKind::Fish.deactivate(&rest()), Fish.deactivate(&rest()));
    assert_eq!(ShellKind::Zsh.set_env_var("A", "b"), "export A='b'");
}

#[test]
fn zsh_and_fish_cd_hooks_call_use_silently() {
    assert!(Zsh.use_on_cd().contains("pvm use --silent"));
    assert!(Fish.use_on_cd().contains("pvm use --silent"));
}

#[test]
fn activation_sets_marker_then_path() {
    let out = activation_script(&Bash, "/pvm/versions/8.3.1/bin", &rest());
    assert_eq!(
        out,
        "export PVM_MULTISHELL_PATH='/pvm/versions/8.3.1/bin'\nexport PATH='/pvm/versions/8.3.1/bin:/usr/bin:/bin'"
    );
    let fish = activation_script(&Fish, "/v/bin", &rest());
    assert_eq!(
        fish,
        "set -gx PVM_MULTISHELL_PATH '/v/bin'\nset -gx PATH '/v/bin' '/usr/bin' '/bin'"
    );
}
