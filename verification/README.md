# pvm

A PHP version manager: it installs static PHP builds from the bulk
listing of `dl.static-php.dev`, switches the active version per shell (and per
directory through `.php-version`), and keeps a default for new shells.

## Layout

- `src/` — the library, verified with Verus. Every decision pvm makes lives
  here as a function with a contract: resolving version requests against the
  installed and the remote versions, the shell text that activates or leaves a
  version, the PATH it writes, the remote index and its cache, package
  selection, pruning, `php.ini` rewriting for Xdebug, and the once-a-day
  update lookup. Proof functions named `law_*` state what holds across calls
  (for example that activations never stack PATH entries).
- `app/` — the `pvm` binary: command-line parsing, the disk, the network,
  terminals and prompts, around the library's decisions.
- `tests/` — tests of the library on concrete values.

Calls into outside code go through a few trusted wrappers whose contracts
are stated in their doc comments: `semver` (parsing and ordering versions),
`serde_json` (reading and writing the cache), `flate2` with `tar` (reading
the entries of a downloaded `.tar.gz`, in `read_archive`), and std's
`String::push` for a single character, which vstd does not specify.
