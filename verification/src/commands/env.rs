//! `pvm env`: the shell setup that `eval "$(pvm env)"` evaluates.
use crate::constants::{MULTISHELL_PATH_VAR, PVM_DIR_VAR};
use crate::fs::{bin_dir_of, get_version_bin_dir, installed, is_version_installed, VersionDir};
use crate::shell::{detect_shell, shell_of, Shell, ShellKind};
use crate::text::{append_str, opt_str, owned, str_eq, views};
use vstd::prelude::*;

verus! {

/// Print and set up the environment variables pvm needs.
///
/// The output is shell commands to evaluate: `eval "$(pvm env)"` in Bash
/// and Zsh, `pvm env | source` in Fish.
#[derive(Clone, Debug, PartialEq)]
pub struct Env {
    /// Override the detected shell (bash, zsh, fish).
    pub shell: Option<String>,
}

/// The shell to write for: the one named by `--shell` when it is one pvm
/// knows, else the one `$SHELL` (`shell_var`) names.
pub open spec fn shell_choice(override_shell: Option<Seq<char>>, shell_var: Seq<char>) -> ShellKind {
    match override_shell {
        Some(s) => if s == "bash"@ {
            ShellKind::Bash
        } else if s == "zsh"@ {
            ShellKind::Zsh
        } else if s == "fish"@ {
            ShellKind::Fish
        } else {
            shell_of(shell_var)
        },
        None => shell_of(shell_var),
    }
}

/// The shell to write for.
pub fn shell_for(override_shell: Option<&str>, shell_var: &str) -> (r: ShellKind)
    ensures
        r == shell_choice(opt_str(override_shell), shell_var@),
{
    match override_shell {
        Some(s) => {
            if str_eq(s, "bash") {
                ShellKind::Bash
            } else if str_eq(s, "zsh") {
                ShellKind::Zsh
            } else if str_eq(s, "fish") {
                ShellKind::Fish
            } else {
                detect_shell(shell_var)
            }
        },
        None => detect_shell(shell_var),
    }
}

/// What `pvm env` writes: the script for stdout, and a warning for stderr
/// (so the evaluated output stays clean).
#[derive(Clone, Debug, PartialEq)]
pub struct EnvOutput {
    pub script: String,
    pub warning: Option<String>,
}

/// The setup every shell gets: `PVM_DIR`, the wrapper function and the
/// directory-change hook, one per line.
pub open spec fn setup_text<S: Shell>(s: S, pvm_dir: Seq<char>) -> Seq<char> {
    s.set_env_var_text(PVM_DIR_VAR@, pvm_dir) + "\n"@ + s.wrapper_fn_text() + "\n"@ + s.use_on_cd_text()
        + "\n"@
}

/// `piece` stands in `t` at position `i`.
pub open spec fn text_at(t: Seq<char>, piece: Seq<char>, i: int) -> bool {
    0 <= i && i + piece.len() <= t.len() && t.subrange(i, i + piece.len()) == piece
}

/// `t` holds `first` and, after it, `second`.
pub open spec fn holds_in_order(t: Seq<char>, first: Seq<char>, second: Seq<char>) -> bool {
    exists|i: int, j: int| text_at(t, first, i) && i + first.len() <= j && text_at(t, second, j)
}

/// Whatever follows it, the setup of `pvm env` holds the shell's wrapper
/// function and, after it, the shell's directory-change hook: evaluating it
/// always installs the hook that switches PHP on `cd` into a directory with
/// a `.php-version` file.
pub proof fn law_env_installs_cd_hook<S: Shell>(s: S, pvm_dir: Seq<char>, tail: Seq<char>)
    ensures
        holds_in_order(setup_text(s, pvm_dir) + tail, s.wrapper_fn_text(), s.use_on_cd_text()),
{
    let t = setup_text(s, pvm_dir) + tail;
    let w = s.wrapper_fn_text();
    let h = s.use_on_cd_text();
    reveal_strlit("\n");
    let head = s.set_env_var_text(PVM_DIR_VAR@, pvm_dir) + "\n"@;
    let i = head.len() as int;
    let j = i + w.len() + 1;
    assert(t =~= head + w + "\n"@ + h + "\n"@ + tail);
    assert(t.subrange(i, i + w.len()) =~= w);
    assert(t.subrange(j, j + h.len()) =~= h);
    assert(text_at(t, w, i) && i + w.len() <= j && text_at(t, h, j));
}

/// The activation of the default version `v`, one command per line.
pub open spec fn default_activation_text<S: Shell>(s: S, pvm_dir: Seq<char>, v: Seq<char>, rest: Seq<Seq<char>>) -> Seq<char> {
    s.set_env_var_text(MULTISHELL_PATH_VAR@, bin_dir_of(pvm_dir, v)) + "\n"@ + s.path_text(
        bin_dir_of(pvm_dir, v),
        rest,
    ) + "\n"@
}

/// The warning about a default version that is not installed.
pub open spec fn stale_default_text(v: Seq<char>) -> Seq<char> {
    "pvm: default version "@ + v + " is not installed; run 'pvm default' to fix"@
}

/// The output of `pvm env` for shell `s`: the setup, then, when a default
/// version is set (`default_version`) and installed, its activation in
/// front of `rest` (the inherited PATH without pvm's entries); a default
/// that is not installed is reported instead of activated.
pub fn env_output<S: Shell>(
    s: &S,
    pvm_dir: &str,
    default_version: Option<&str>,
    dirs: &[VersionDir],
    rest: &[String],
) -> (r: EnvOutput)
    ensures
        match default_version {
            Some(v) => if installed(dirs@, v@) {
                r.script@ == setup_text(*s, pvm_dir@) + default_activation_text(*s, pvm_dir@, v@, views(rest@))
                    && r.warning is None
            } else {
                r.script@ == setup_text(*s, pvm_dir@) && (r.warning matches Some(w) && w@ == stale_default_text(
                    v@,
                ))
            },
            None => r.script@ == setup_text(*s, pvm_dir@) && r.warning is None,
        },
        holds_in_order(r.script@, s.wrapper_fn_text(), s.use_on_cd_text()),
{
    let mut script = s.set_env_var(PVM_DIR_VAR, pvm_dir);
    append_str(&mut script, "\n");
    let w = s.wrapper_fn();
    append_str(&mut script, w.as_str());
    append_str(&mut script, "\n");
    let h = s.use_on_cd();
    append_str(&mut script, h.as_str());
    append_str(&mut script, "\n");
    match default_version {
        Some(v) => {
            if is_version_installed(dirs, v) {
                let bin_dir = get_version_bin_dir(pvm_dir, v);
                let a = s.set_env_var(MULTISHELL_PATH_VAR, bin_dir.as_str());
                append_str(&mut script, a.as_str());
                append_str(&mut script, "\n");
                let p = s.path(bin_dir.as_str(), rest);
                append_str(&mut script, p.as_str());
                append_str(&mut script, "\n");
                proof {
                    law_env_installs_cd_hook(*s, pvm_dir@, default_activation_text(*s, pvm_dir@, v@, views(rest@)));
                }
                EnvOutput { script, warning: None }
            } else {
                let mut warn = owned("pvm: default version ");
                append_str(&mut warn, v);
                append_str(&mut warn, " is not installed; run 'pvm default' to fix");
                proof {
                    law_env_installs_cd_hook(*s, pvm_dir@, Seq::empty());
                    assert(setup_text(*s, pvm_dir@) + Seq::<char>::empty() =~= setup_text(*s, pvm_dir@));
                }
                EnvOutput { script, warning: Some(warn) }
            }
        },
        None => {
            proof {
                law_env_installs_cd_hook(*s, pvm_dir@, Seq::empty());
                assert(setup_text(*s, pvm_dir@) + Seq::<char>::empty() =~= setup_text(*s, pvm_dir@));
            }
            EnvOutput { script, warning: None }
        },
    }
}

} // verus!
