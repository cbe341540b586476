//! `pvm uninstall`: which version goes and what goes with it.
use crate::fs::{local_resolution, resolve_local_version, ResolveError};
use crate::text::{append_str, opt_str, owned, str_eq, views};
use vstd::prelude::*;

verus! {

/// Uninstall a specific PHP version.
#[derive(Clone, Debug, PartialEq)]
pub struct Uninstall {
    /// The version to uninstall.
    pub version: Option<String>,
    /// Auto-approve the uninstallation without prompting.
    pub yes: bool,
}

/// What uninstalling a version involves.
#[derive(Clone, Debug, PartialEq)]
pub struct UninstallPlan {
    /// The installed version to remove.
    pub version: String,
    /// It is the active version: warn before removing it.
    pub is_current: bool,
    /// It is the default version: the default goes with it.
    pub clears_default: bool,
}

/// The plan for removing `requested` (resolved among `installed`, as
/// `list_installed_versions` gives them), with `current` active and
/// `default_version` as the default.
pub fn uninstall_plan(
    installed: &[String],
    requested: &str,
    current: &str,
    default_version: Option<&str>,
) -> (r: Result<UninstallPlan, ResolveError>)
    ensures
        match local_resolution(views(installed@), requested@) {
            Some(v) => (r matches Ok(p) && p.version@ == v && p.is_current == (v == current@)
                && p.clears_default == (opt_str(default_version) == Some(v))),
            None => if requested@ == "latest"@ {
                r == Err::<UninstallPlan, ResolveError>(ResolveError::NothingInstalled)
            } else {
                (r matches Err(ResolveError::NotInstalled(x)) && x@ == requested@)
            },
        },
{
    let version = resolve_local_version(installed, requested)?;
    let is_current = str_eq(version.as_str(), current);
    let clears_default = match default_version {
        Some(d) => str_eq(d, version.as_str()),
        None => false,
    };
    Ok(UninstallPlan { version, is_current, clears_default })
}

/// Asking first: only on a terminal, and not with `--yes`.
pub fn needs_confirmation(yes: bool, is_tty: bool) -> (r: bool)
    ensures
        r == (!yes && is_tty),
{
    !yes && is_tty
}

/// The note printed when the default version goes with its removal.
pub fn default_cleared_message(version: &str) -> (r: String)
    ensures
        r@ == "PHP "@ + version@ + " was the default version; default cleared."@,
{
    let mut out = owned("PHP ");
    append_str(&mut out, version);
    append_str(&mut out, " was the default version; default cleared.");
    out
}

} // verus!
