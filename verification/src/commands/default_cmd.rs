//! `pvm default`: the version new shells start on.
use crate::fs::{local_resolution, resolve_local_version, ResolveError, VersionItem};
use crate::text::{append_str, opt_str, owned, str_eq, views};
use vstd::prelude::*;

verus! {

/// Set the default PHP version for new shells (evaluated by `pvm env`).
#[derive(Clone, Debug, PartialEq)]
pub struct DefaultCmd {
    /// The version to use as default, "system" to clear (omit for the interactive list).
    pub version: Option<String>,
}

/// What `pvm default` does.
#[derive(Clone, Debug, PartialEq)]
pub enum DefaultAction {
    /// Forget the default: new shells start on the system PHP.
    Clear,
    /// Make this installed version the default.
    MakeDefault(String),
    /// Print the default (no terminal to pick on).
    Show,
    /// Offer the installed versions.
    Pick,
}

/// The action for the argument `version`: `system` clears, a version is
/// resolved among `installed`; without one a terminal gets a picker and
/// anything else the current default printed.
pub fn default_action(version: Option<&str>, installed: &[String], is_tty: bool) -> (r: Result<
    DefaultAction,
    ResolveError,
>)
    ensures
        match version {
            Some(v) => if v@ == "system"@ {
                r == Ok::<DefaultAction, ResolveError>(DefaultAction::Clear)
            } else {
                match local_resolution(views(installed@), v@) {
                    Some(t) => (r matches Ok(DefaultAction::MakeDefault(x)) && x@ == t),
                    None => if v@ == "latest"@ {
                        r == Err::<DefaultAction, ResolveError>(ResolveError::NothingInstalled)
                    } else {
                        (r matches Err(ResolveError::NotInstalled(x)) && x@ == v@)
                    },
                }
            },
            None => if is_tty {
                r == Ok::<DefaultAction, ResolveError>(DefaultAction::Pick)
            } else {
                r == Ok::<DefaultAction, ResolveError>(DefaultAction::Show)
            },
        },
{
    match version {
        Some(v) => {
            if str_eq(v, "system") {
                Ok(DefaultAction::Clear)
            } else {
                let t = resolve_local_version(installed, v)?;
                Ok(DefaultAction::MakeDefault(t))
            }
        },
        None => {
            if is_tty {
                Ok(DefaultAction::Pick)
            } else {
                Ok(DefaultAction::Show)
            }
        },
    }
}

/// What `pvm default` prints without a terminal: the default, or `none`.
pub fn shown_default(default_version: Option<&str>) -> (r: String)
    ensures
        r@ == match default_version {
            Some(v) => v@,
            None => "none"@,
        },
{
    match default_version {
        Some(v) => owned(v),
        None => owned("none"),
    }
}

/// The picker's entries: each item's label, marked when it is the default.
pub fn default_labels(items: &[VersionItem], default_version: Option<&str>) -> (r: Vec<(String, bool)>)
    ensures
        r@.len() == items@.len(),
        forall|i: int|
            0 <= i < r@.len() ==> (#[trigger] r@[i]).0@ == items@[i].display@ && r@[i].1 == (opt_str(
                default_version,
            ) == Some(items@[i].version@)),
{
    let mut r: Vec<(String, bool)> = Vec::new();
    let mut i: usize = 0;
    while i < items.len()
        invariant
            i <= items@.len(),
            r@.len() == i,
            forall|k: int|
                0 <= k < i ==> (#[trigger] r@[k]).0@ == items@[k].display@ && r@[k].1 == (opt_str(
                    default_version,
                ) == Some(items@[k].version@)),
        decreases items.len() - i,
    {
        let mark = match default_version {
            Some(d) => str_eq(items[i].version.as_str(), d),
            None => false,
        };
        r.push((items[i].display.clone(), mark));
        i = i + 1;
    }
    r
}

/// The confirmation after clearing the default.
pub fn cleared_message() -> (r: String)
    ensures
        r@ == "Default cleared. New shells start on the system PHP."@,
{
    owned("Default cleared. New shells start on the system PHP.")
}

/// The confirmation after setting the default to `version`.
pub fn set_message(version: &str) -> (r: String)
    ensures
        r@ == "Default version set to "@ + version@ + ". New shells pick it up via 'pvm env'."@,
{
    let mut out = owned("Default version set to ");
    append_str(&mut out, version);
    append_str(&mut out, ". New shells pick it up via 'pvm env'.");
    out
}

} // verus!
