//! Names shared by the command-line tool and the shell integration.
use vstd::prelude::*;

verus! {

/// The name of the environment variable used to store the path to the PVM installation.
pub const PVM_DIR_VAR: &'static str = "PVM_DIR";

/// The name of the environment variable used to store the path to the currently active PHP version's bin directory.
pub const MULTISHELL_PATH_VAR: &'static str = "PVM_MULTISHELL_PATH";

/// The name of the file used to store the environment variables to be updated in the shell.
pub const ENV_UPDATE_FILE: &'static str = ".env_update";

/// The legacy name of the remote versions cache, from before the cache was
/// kept per target. The cache is now `remote_cache-<target>.json` (see
/// `network::get_cache_path`); `cache clear` still removes a file by this name,
/// since it matches `remote_cache*.json`.
pub const REMOTE_CACHE_FILE: &'static str = "remote_cache.json";

/// The name of the file used as a guard for the update check.
pub const UPDATE_CHECK_GUARD_FILE: &'static str = ".update_check_guard";

/// The name of the file used to store the PHP version for a directory.
pub const PHP_VERSION_FILE: &'static str = ".php-version";

/// The name of the file, under the PVM directory, that holds the default version.
pub const DEFAULT_VERSION_FILE: &'static str = "default";

/// The base URL of the static-php-cli bulk builds: the index is fetched from
/// it with `?format=json`, and every archive is downloaded from under it.
pub const BASE_URL: &'static str = "https://dl.static-php.dev/static-php-cli/bulk/";

} // verus!
