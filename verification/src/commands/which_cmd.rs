//! `pvm which`: the `php` binary of the active or a given version.
use crate::fs::{bin_dir_of, get_version_bin_dir, installed, is_version_installed, local_resolution, resolve_local_version, ResolveError, VersionDir};
use crate::paths::{join, path_join};
use crate::text::{append_str, owned, str_eq, views};
use vstd::prelude::*;

verus! {

/// Print the path of the active or given PHP binary.
#[derive(Clone, Debug, PartialEq)]
pub struct Which {
    /// The version to inspect (defaults to the active one).
    pub version: Option<String>,
}

/// Why `pvm which` has no binary to print.
#[derive(Clone, Debug, PartialEq)]
pub enum WhichError {
    /// The requested version does not resolve locally.
    Resolve(ResolveError),
    /// No version was named and the system PHP is active.
    NoneActive,
    /// The version has no `cli` package (no `bin/php`).
    NoCli(String),
}

impl WhichError {
    /// The message shown for this error.
    pub fn message(&self) -> (r: String)
        ensures
            r@ == match self {
                WhichError::Resolve(e) => e.message_text(),
                WhichError::NoneActive => "no pvm-managed PHP is active (try: pvm which <version>)"@,
                WhichError::NoCli(v) => "PHP "@ + v@ + " has no cli package installed"@,
            },
    {
        match self {
            WhichError::Resolve(e) => e.message(),
            WhichError::NoneActive => owned("no pvm-managed PHP is active (try: pvm which <version>)"),
            WhichError::NoCli(v) => {
                let mut out = owned("PHP ");
                append_str(&mut out, v.as_str());
                append_str(&mut out, " has no cli package installed");
                out
            },
        }
    }
}

/// The `php` binary of the version `requested` names among `installed`
/// (as `list_installed_versions` gives them), else of the active version
/// `current`; `dirs` says which versions have their `bin/php`.
pub fn which_php(
    pvm_dir: &str,
    installed_list: &[String],
    dirs: &[VersionDir],
    requested: Option<&str>,
    current: &str,
) -> (r: Result<String, WhichError>)
    ensures
        ({
            let target = match requested {
                Some(v) => local_resolution(views(installed_list@), v@),
                None => if current@ == "system"@ {
                    None::<Seq<char>>
                } else {
                    Some(current@)
                },
            };
            match target {
                Some(t) => if installed(dirs@, t) {
                    (r matches Ok(p) && p@ == path_join(bin_dir_of(pvm_dir@, t), "php"@))
                } else {
                    (r matches Err(WhichError::NoCli(x)) && x@ == t)
                },
                None => match requested {
                    Some(v) => if v@ == "latest"@ {
                        r == Err::<String, WhichError>(WhichError::Resolve(ResolveError::NothingInstalled))
                    } else {
                        (r matches Err(WhichError::Resolve(ResolveError::NotInstalled(x))) && x@ == v@)
                    },
                    None => r == Err::<String, WhichError>(WhichError::NoneActive),
                },
            }
        }),
{
    let version = match requested {
        Some(v) => match resolve_local_version(installed_list, v) {
            Ok(t) => t,
            Err(e) => return Err(WhichError::Resolve(e)),
        },
        None => {
            if str_eq(current, "system") {
                return Err(WhichError::NoneActive);
            }
            owned(current)
        },
    };
    if !is_version_installed(dirs, version.as_str()) {
        return Err(WhichError::NoCli(version));
    }
    let bin = get_version_bin_dir(pvm_dir, version.as_str());
    Ok(join(bin.as_str(), "php"))
}

} // verus!
