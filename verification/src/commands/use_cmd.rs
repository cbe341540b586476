//! `pvm use`: what a request names, what to do when the version is missing,
//! whether to touch `.php-version`, and the shell text that switches PHP.
use crate::constants::MULTISHELL_PATH_VAR;
use crate::fs::{bin_dir_of, outside_versions, path_entries, trim, trim_str, versions_dir_of};
use crate::paths::{
    lemma_below_transitive, lemma_join_below, lemma_join_lacks, lemma_split_join,
    lemma_split_pieces_lack, path_join, path_starts_with,
};
use crate::shell::{path_value, Shell};
use crate::text::{
    append_str, lemma_filter_all, lemma_filter_none, lemma_non_empty_idempotent,
    lemma_non_empty_members, lemma_non_empty_prepend, no_char, non_empty, opt_str, owned, str_eq,
    views,
};
use vstd::prelude::*;

verus! {

/// Change PHP version.
#[derive(Clone, Debug, PartialEq)]
pub struct Use {
    /// The version to use (omit for the interactive list).
    pub version: Option<String>,
    /// Skip interactive prompts when the requested version is missing (used by shell hooks).
    pub silent: bool,
    /// Auto-approve prompts (install missing versions, patch updates).
    pub yes: bool,
}

/// How an activation behaves.
#[derive(Clone, Copy, Debug, PartialEq, Eq, Structural)]
pub struct ActivateOpts {
    /// The version came from an interactive picker: offer to persist it in `.php-version`.
    pub offer_save: bool,
    /// Auto-approve prompts.
    pub assume_yes: bool,
    /// Suppress the success message (the shell cd-hook runs on every prompt).
    pub quiet: bool,
}

impl ActivateOpts {
    /// The options of a version picked from a list: offer to save it.
    pub fn picker(assume_yes: bool) -> (r: Self)
        ensures
            r == (ActivateOpts { offer_save: true, assume_yes, quiet: false }),
    {
        ActivateOpts { offer_save: true, assume_yes, quiet: false }
    }
}

// ---------------------------------------------------------------------------
// What is asked for
// ---------------------------------------------------------------------------

/// What `pvm use` was asked for.
#[derive(Clone, Debug, PartialEq)]
pub enum UseRequest {
    /// `system`: leave pvm's PHP for the system one.
    System,
    /// A version named on the command line.
    Given(String),
    /// The version named in `.php-version` (trimmed).
    FromFile(String),
    /// Nothing named anywhere: offer the installed versions.
    Pick,
}

/// What a request amounts to: the argument when there is one, else the
/// trimmed contents of `.php-version` when they are not blank, else a choice
/// from the installed versions. `system`, from either place, is not a real
/// version: it asks to leave pvm's PHP.
pub fn use_request(version: Option<&str>, php_version_file: Option<&str>) -> (r: UseRequest)
    ensures
        match version {
            Some(v) => if v@ == "system"@ {
                r == UseRequest::System
            } else {
                (r matches UseRequest::Given(g) && g@ == v@)
            },
            None => match php_version_file {
                Some(c) => if trim(c@) == "system"@ {
                    r == UseRequest::System
                } else if trim(c@).len() > 0 {
                    (r matches UseRequest::FromFile(f) && f@ == trim(c@))
                } else {
                    r == UseRequest::Pick
                },
                None => r == UseRequest::Pick,
            },
        },
{
    match version {
        Some(v) => {
            if str_eq(v, "system") {
                UseRequest::System
            } else {
                UseRequest::Given(owned(v))
            }
        },
        None => match php_version_file {
            Some(c) => {
                let t = trim_str(c);
                if str_eq(t.as_str(), "system") {
                    UseRequest::System
                } else if t.as_str().is_empty() {
                    UseRequest::Pick
                } else {
                    UseRequest::FromFile(t)
                }
            },
            None => UseRequest::Pick,
        },
    }
}

/// Offering the installed versions needs a terminal; without one the
/// request fails with a usage hint.
pub fn picker_gate(is_tty: bool) -> (r: Result<(), String>)
    ensures
        is_tty ==> r is Ok,
        !is_tty ==> (r matches Err(m) && m@ == "No version given. Usage: pvm use <version>"@),
{
    if is_tty {
        Ok(())
    } else {
        Err(owned("No version given. Usage: pvm use <version>"))
    }
}

/// Whether an activation looks for a newer patch: only on a terminal, so
/// scripts never trigger a download nobody asked for.
pub fn offers_patch_update(is_tty: bool) -> (r: bool)
    ensures
        r == is_tty,
{
    is_tty
}

/// What to do about a requested version that is not installed.
#[derive(Clone, Copy, Debug, PartialEq, Eq, Structural)]
pub enum MissingStep {
    /// Say nothing and change nothing (the shell hook asked).
    Skip,
    /// Install it (`--yes`).
    Install,
    /// Ask on the terminal whether to install it.
    Ask,
    /// Refuse: without a terminal or `--yes` nothing is downloaded silently.
    Refuse,
}

/// The step for a missing version: the shell hook's `--silent` skips it,
/// `--yes` installs it, a terminal is asked, and anything else is refused,
/// so a script never starts a download nobody approved.
pub fn missing_step(silent: bool, assume_yes: bool, is_tty: bool) -> (r: MissingStep)
    ensures
        r == if silent {
            MissingStep::Skip
        } else if assume_yes {
            MissingStep::Install
        } else if is_tty {
            MissingStep::Ask
        } else {
            MissingStep::Refuse
        },
{
    if silent {
        MissingStep::Skip
    } else if assume_yes {
        MissingStep::Install
    } else if is_tty {
        MissingStep::Ask
    } else {
        MissingStep::Refuse
    }
}

/// The message of a refused missing version.
pub open spec fn refusal_text(version: Seq<char>) -> Seq<char> {
    "PHP "@ + version + " is not installed locally. Run 'pvm install "@ + version
        + "' or pass --yes to install it."@
}

/// The message given when a missing version is refused.
pub fn refusal_message(version: &str) -> (r: String)
    ensures
        r@ == refusal_text(version@),
{
    let mut out = owned("PHP ");
    append_str(&mut out, version);
    append_str(&mut out, " is not installed locally. Run 'pvm install ");
    append_str(&mut out, version);
    append_str(&mut out, "' or pass --yes to install it.");
    out
}

/// The message given when the version to activate is not installed.
pub open spec fn not_installed_text(version: Seq<char>) -> Seq<char> {
    "PHP "@ + version + " is not installed. Run 'pvm install "@ + version + "' first."@
}

/// The message given when the version to activate is not installed.
pub fn not_installed_message(version: &str) -> (r: String)
    ensures
        r@ == not_installed_text(version@),
{
    let mut out = owned("PHP ");
    append_str(&mut out, version);
    append_str(&mut out, " is not installed. Run 'pvm install ");
    append_str(&mut out, version);
    append_str(&mut out, "' first.");
    out
}

// ---------------------------------------------------------------------------
// .php-version
// ---------------------------------------------------------------------------

/// Whether to offer writing the activated version to `.php-version`.
#[derive(Clone, Debug, PartialEq)]
pub enum SavePrompt {
    /// Leave the file alone.
    Nothing,
    /// A picked version: offer to save it (showing what the file holds now).
    Save(Option<String>),
    /// The file names another version: offer to apply the change to it.
    Apply(String),
}

/// What to offer about `.php-version`, whose trimmed contents are
/// `file_version` (when it can be read): a picked version is offered for
/// saving unless the file already names it; otherwise only a file naming a
/// different version is offered the change. A quiet activation (the shell
/// hook on every directory change) never offers anything. Neither offer is
/// covered by `--yes`: writing the file is a side effect to opt into
/// explicitly.
pub fn save_prompt(offer_save: bool, quiet: bool, file_version: Option<&str>, version: &str) -> (r: SavePrompt)
    ensures
        quiet ==> r == SavePrompt::Nothing,
        !quiet && offer_save ==> if opt_str(file_version) == Some(version@) {
            r == SavePrompt::Nothing
        } else {
            (r matches SavePrompt::Save(cur) && match cur {
                Some(c) => opt_str(file_version) == Some(c@),
                None => file_version is None,
            })
        },
        !quiet && !offer_save ==> match file_version {
            Some(c) => if c@ != version@ {
                (r matches SavePrompt::Apply(cur) && cur@ == c@)
            } else {
                r == SavePrompt::Nothing
            },
            None => r == SavePrompt::Nothing,
        },
{
    if quiet {
        SavePrompt::Nothing
    } else if offer_save {
        match file_version {
            Some(c) => {
                if str_eq(c, version) {
                    SavePrompt::Nothing
                } else {
                    SavePrompt::Save(Some(owned(c)))
                }
            },
            None => SavePrompt::Save(None),
        }
    } else {
        match file_version {
            Some(c) => {
                if str_eq(c, version) {
                    SavePrompt::Nothing
                } else {
                    SavePrompt::Apply(owned(c))
                }
            },
            None => SavePrompt::Nothing,
        }
    }
}

// ---------------------------------------------------------------------------
// The text the shell evaluates
// ---------------------------------------------------------------------------

/// The activation of `bin_dir` in front of `rest` (the inherited PATH with
/// pvm's entries dropped): the multishell marker, then PATH.
pub open spec fn activation_text<S: Shell>(s: S, bin_dir: Seq<char>, rest: Seq<Seq<char>>) -> Seq<char> {
    s.set_env_var_text(MULTISHELL_PATH_VAR@, bin_dir) + "\n"@ + s.path_text(bin_dir, rest)
}

/// The text that activates `bin_dir` for the shell `s`.
pub fn activation_script<S: Shell>(s: &S, bin_dir: &str, rest: &[String]) -> (r: String)
    ensures
        r@ == activation_text(*s, bin_dir@, views(rest@)),
{
    let mut out = s.set_env_var(MULTISHELL_PATH_VAR, bin_dir);
    append_str(&mut out, "\n");
    let p = s.path(bin_dir, rest);
    append_str(&mut out, p.as_str());
    out
}

/// The entries of a PATH that lie under the versions directory.
pub open spec fn managed_entries(entries: Seq<Seq<char>>, versions_dir: Seq<char>) -> Seq<Seq<char>> {
    entries.filter(|e: Seq<char>| path_starts_with(e, versions_dir))
}

/// Activation never stacks PATH entries. Whatever PATH a shell starts with,
/// the PATH an activation of `version` writes holds exactly one entry under
/// the versions directory, the version's own bin directory; dropping pvm's
/// entries from it again gives back the (non-empty) base it was built from;
/// and so switching to `a` and then to `b` leaves the same PATH as switching
/// to `b` directly.
pub proof fn law_activation_does_not_stack(
    pvm_dir: Seq<char>,
    path_var: Seq<char>,
    a: Seq<char>,
    b: Seq<char>,
)
    requires
        no_char(pvm_dir, ':'),
        no_char(a, ':'),
        no_char(a, '/'),
        no_char(b, ':'),
        no_char(b, '/'),
    ensures
        ({
            let vd = versions_dir_of(pvm_dir);
            let rest = outside_versions(path_entries(path_var), vd);
            let first = path_value(bin_dir_of(pvm_dir, a), rest);
            &&& managed_entries(path_entries(first), vd) == seq![bin_dir_of(pvm_dir, a)]
            &&& outside_versions(path_entries(first), vd) == non_empty(rest)
            &&& path_value(bin_dir_of(pvm_dir, b), outside_versions(path_entries(first), vd))
                == path_value(bin_dir_of(pvm_dir, b), rest)
        }),
{
    let vd = versions_dir_of(pvm_dir);
    let rest = outside_versions(path_entries(path_var), vd);
    let bin_a = bin_dir_of(pvm_dir, a);
    let bin_b = bin_dir_of(pvm_dir, b);
    lemma_bin_dir_facts(pvm_dir, a);
    lemma_bin_dir_facts(pvm_dir, b);
    let out = |e: Seq<char>| !path_starts_with(e, vd);
    let inside = |e: Seq<char>| path_starts_with(e, vd);
    // The base: pieces of PATH (no `:`), none under the versions directory.
    lemma_split_pieces_lack(path_var, ':');
    let entries = path_entries(path_var);
    assert forall|i: int| 0 <= i < rest.len() implies no_char(#[trigger] rest[i], ':') && out(rest[i]) by {
        entries.lemma_filter_contains_rev(out, rest[i]);
        let j = choose|j: int| 0 <= j < entries.len() && entries[j] == rest[i];
        entries.lemma_filter_pred(out, i);
    }
    let ne = non_empty(rest);
    lemma_non_empty_members(rest);
    assert forall|i: int| 0 <= i < ne.len() implies no_char(#[trigger] ne[i], ':') && out(ne[i]) by {
        let j = choose|j: int| 0 <= j < rest.len() && rest[j] == ne[i];
    }
    // The written PATH splits back into the bin directory and the base.
    let parts = seq![bin_a] + ne;
    lemma_non_empty_prepend(bin_a, rest);
    assert forall|i: int| 0 <= i < parts.len() implies no_char(#[trigger] parts[i], ':') by {
        if i > 0 {
            assert(parts[i] == ne[i - 1]);
        }
    }
    lemma_split_join(parts, ':');
    assert(path_entries(path_value(bin_a, rest)) == parts) by {
        reveal_strlit(":");
        assert(":"@ =~= seq![':']);
    }
    Seq::filter_distributes_over_add(seq![bin_a], ne, inside);
    Seq::filter_distributes_over_add(seq![bin_a], ne, out);
    assert forall|i: int| 0 <= i < ne.len() implies !inside(#[trigger] ne[i]) by {
        assert(out(ne[i]));
    }
    lemma_filter_none(ne, inside);
    lemma_filter_all(ne, out);
    lemma_filter_all(seq![bin_a], inside);
    lemma_filter_none(seq![bin_a], out);
    assert(managed_entries(parts, vd) =~= seq![bin_a]);
    assert(outside_versions(parts, vd) =~= ne);
    // Switching again starts from the same base.
    lemma_non_empty_prepend(bin_b, ne);
    lemma_non_empty_prepend(bin_b, rest);
    lemma_non_empty_idempotent(rest);
}

/// Leaving pvm's PHP drops every pvm entry: whatever PATH a shell starts
/// with, the PATH the deactivation writes (its base, joined by `:`) has no
/// entry under the versions directory.
pub proof fn law_deactivation_drops_managed_entries(pvm_dir: Seq<char>, path_var: Seq<char>)
    ensures
        ({
            let vd = versions_dir_of(pvm_dir);
            let rest = outside_versions(path_entries(path_var), vd);
            managed_entries(path_entries(crate::text::join(rest, ":"@)), vd).len() == 0
        }),
{
    let vd = versions_dir_of(pvm_dir);
    let rest = outside_versions(path_entries(path_var), vd);
    let out = |e: Seq<char>| !path_starts_with(e, vd);
    let inside = |e: Seq<char>| path_starts_with(e, vd);
    reveal_strlit(":");
    assert(":"@ =~= seq![':']);
    lemma_split_pieces_lack(path_var, ':');
    let entries = path_entries(path_var);
    assert forall|i: int| 0 <= i < rest.len() implies no_char(#[trigger] rest[i], ':') && out(rest[i]) by {
        entries.lemma_filter_contains_rev(out, rest[i]);
        entries.lemma_filter_pred(out, i);
    }
    if rest.len() > 0 {
        lemma_split_join(rest, ':');
        assert forall|i: int| 0 <= i < rest.len() implies !inside(#[trigger] rest[i]) by {
            assert(out(rest[i]));
        }
        lemma_filter_none(rest, inside);
    } else {
        assert(crate::text::join(rest, ":"@) =~= Seq::<char>::empty());
        assert(path_entries(Seq::<char>::empty()) =~= seq![Seq::<char>::empty()]);
        lemma_versions_dir_named(pvm_dir);
        assert(!inside(Seq::<char>::empty()));
        assert(seq![Seq::<char>::empty()].drop_last() =~= Seq::<Seq<char>>::empty());
        assert(managed_entries(seq![Seq::<char>::empty()], vd) =~= Seq::<Seq<char>>::empty()) by {
            reveal_with_fuel(vstd::seq::Seq::filter, 2);
        }
    }
}

/// The versions directory has a component, so the empty path does not lie
/// below it.
proof fn lemma_versions_dir_named(pvm_dir: Seq<char>)
    ensures
        !path_starts_with(Seq::<char>::empty(), versions_dir_of(pvm_dir)),
{
    reveal_strlit("versions");
    reveal_strlit(".");
    let vd = versions_dir_of(pvm_dir);
    assert(no_char("versions"@, '/'));
    let f = |x: Seq<char>| x.len() > 0 && x != "."@;
    let e = Seq::<char>::empty();
    assert(crate::paths::split(e, '/') =~= seq![e]);
    assert(seq![e].drop_last() =~= Seq::<Seq<char>>::empty());
    assert(crate::paths::split(e, '/').filter(f) =~= Seq::<Seq<char>>::empty()) by {
        reveal_with_fuel(vstd::seq::Seq::filter, 2);
    }
    assert(e.len() == 0);
    assert(crate::paths::split(e, '/')[0].len() == 0);
    assert("."@.len() == 1);
    assert(crate::paths::components(e) =~= Seq::<Seq<char>>::empty());
    // `versions` is a named piece of the versions directory.
    let p = vd;
    let base = pvm_dir;
    let name = "versions"@;
    assert(f(name)) by {
        assert(name.len() == 8);
    }
    if base.len() == 0 || base.last() == '/' {
        assert(p =~= base + name);
        if base.len() == 0 {
            crate::paths::lemma_split_plain(name, '/');
            assert(p =~= name);
            assert(seq![name].drop_last() =~= Seq::<Seq<char>>::empty());
            assert(seq![name].filter(f) =~= seq![name]) by {
                reveal_with_fuel(vstd::seq::Seq::filter, 2);
            }
        } else {
            let b = base.drop_last();
            assert(p =~= b + seq!['/'] + name);
            crate::paths::lemma_split_append(b, name, '/');
            crate::paths::lemma_split_len(b, '/');
            crate::paths::split(b, '/').lemma_filter_push(name, f);
        }
    } else {
        assert(p =~= base + seq!['/'] + name) by {
            reveal_strlit("/");
        }
        crate::paths::lemma_split_append(base, name, '/');
        crate::paths::split(base, '/').lemma_filter_push(name, f);
    }
    assert(crate::paths::components(p).len() > 0);
}

/// The bin directory of a version lies below the versions directory, is not
/// empty, and has no `:` when neither the pvm directory nor the version has.
proof fn lemma_bin_dir_facts(pvm_dir: Seq<char>, version: Seq<char>)
    requires
        no_char(pvm_dir, ':'),
        no_char(version, ':'),
        no_char(version, '/'),
    ensures
        path_starts_with(bin_dir_of(pvm_dir, version), versions_dir_of(pvm_dir)),
        no_char(bin_dir_of(pvm_dir, version), ':'),
        bin_dir_of(pvm_dir, version).len() > 0,
{
    let vd = versions_dir_of(pvm_dir);
    let vdir = path_join(vd, version);
    reveal_strlit("versions");
    reveal_strlit("bin");
    assert(no_char("bin"@, '/'));
    assert(no_char("bin"@, ':'));
    assert(no_char("versions"@, ':'));
    lemma_join_below(vd, version);
    lemma_join_below(vdir, "bin"@);
    lemma_below_transitive(bin_dir_of(pvm_dir, version), vdir, vd);
    lemma_join_lacks(pvm_dir, "versions"@, ':');
    lemma_join_lacks(vd, version, ':');
    lemma_join_lacks(vdir, "bin"@, ':');
}

} // verus!
