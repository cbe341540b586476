//! The PVM directory layout and what pvm reads from it.
//!
//! Reading the disk is left to the caller: the functions here take what was
//! read (environment values, directory listings, file contents) as plain
//! values and compute what pvm does with them.
use crate::constants::{DEFAULT_VERSION_FILE, ENV_UPDATE_FILE};
use crate::paths::{join, path_join, path_starts_with, split, split_char, starts_with_path};
use crate::text::{chars_of, opt_str, opt_string, owned, string_of_range, views};
use vstd::prelude::*;

verus! {

// ---------------------------------------------------------------------------
// Whitespace and trimming
// ---------------------------------------------------------------------------

/// `c` has the Unicode `White_Space` property (the set `char::is_whitespace` tests).
pub open spec fn is_white(c: char) -> bool {
    let n = c as u32;
    (0x9 <= n <= 0xd) || n == 0x20 || n == 0x85 || n == 0xa0 || n == 0x1680 || (0x2000 <= n
        <= 0x200a) || n == 0x2028 || n == 0x2029 || n == 0x202f || n == 0x205f || n == 0x3000
}

/// Whether `c` is a Unicode whitespace character.
pub fn is_whitespace(c: char) -> (r: bool)
    ensures
        r == is_white(c),
{
    let n = c as u32;
    (0x9 <= n && n <= 0xd) || n == 0x20 || n == 0x85 || n == 0xa0 || n == 0x1680 || (0x2000 <= n
        && n <= 0x200a) || n == 0x2028 || n == 0x2029 || n == 0x202f || n == 0x205f || n == 0x3000
}

/// `s` without its leading whitespace.
pub open spec fn trim_start(s: Seq<char>) -> Seq<char>
    decreases s.len(),
{
    if s.len() > 0 && is_white(s[0]) {
        trim_start(s.drop_first())
    } else {
        s
    }
}

/// `s` without its trailing whitespace.
pub open spec fn trim_end(s: Seq<char>) -> Seq<char>
    decreases s.len(),
{
    if s.len() > 0 && is_white(s.last()) {
        trim_end(s.drop_last())
    } else {
        s
    }
}

/// `s` without leading and trailing whitespace (as `str::trim`).
pub open spec fn trim(s: Seq<char>) -> Seq<char> {
    trim_end(trim_start(s))
}

pub proof fn lemma_trim_start_skip(s: Seq<char>, i: int)
    requires
        0 <= i <= s.len(),
        forall|k: int| 0 <= k < i ==> is_white(s[k]),
        i == s.len() || !is_white(s[i]),
    ensures
        trim_start(s) == s.skip(i),
    decreases i,
{
    if i > 0 {
        assert forall|k: int| 0 <= k < i - 1 implies is_white(s.drop_first()[k]) by {
            assert(s.drop_first()[k] == s[k + 1]);
        }
        lemma_trim_start_skip(s.drop_first(), i - 1);
        assert(s.drop_first().skip(i - 1) =~= s.skip(i));
    } else {
        assert(s.skip(0) =~= s);
    }
}

proof fn lemma_trim_end_take(s: Seq<char>, j: int)
    requires
        0 <= j <= s.len(),
        forall|k: int| j <= k < s.len() ==> is_white(s[k]),
        j == 0 || !is_white(s[j - 1]),
    ensures
        trim_end(s) == s.take(j),
    decreases s.len() - j,
{
    if j < s.len() {
        lemma_trim_end_take(s.drop_last(), j);
        assert(s.drop_last().take(j) =~= s.take(j));
    } else {
        assert(s.take(j) =~= s);
    }
}

/// `s` without leading and trailing whitespace.
pub fn trim_str(s: &str) -> (r: String)
    ensures
        r@ == trim(s@),
{
    let v = chars_of(s);
    let mut i: usize = 0;
    while i < v.len() && is_whitespace(v[i])
        invariant
            i <= v.len(),
            forall|k: int| 0 <= k < i ==> is_white(v@[k]),
        decreases v.len() - i,
    {
        i = i + 1;
    }
    let mut j: usize = v.len();
    while j > i && is_whitespace(v[j - 1])
        invariant
            i <= j <= v.len(),
            forall|k: int| j <= k < v.len() ==> is_white(v@[k]),
        decreases j,
    {
        j = j - 1;
    }
    proof {
        lemma_trim_start_skip(v@, i as int);
        let t = v@.skip(i as int);
        assert forall|k: int| j - i <= k < t.len() implies is_white(t[k]) by {
            assert(t[k] == v@[k + i]);
        }
        if j > i {
            assert(t[j - i - 1] == v@[j - 1]);
        }
        lemma_trim_end_take(t, j - i);
        assert(t.take(j - i) =~= v@.subrange(i as int, j as int));
    }
    string_of_range(&v, i, j)
}

// ---------------------------------------------------------------------------
// Locations
// ---------------------------------------------------------------------------

/// Why a location could not be determined.
#[derive(Clone, Copy, Debug, PartialEq, Eq, Structural)]
pub enum DirError {
    /// Neither `$PVM_DIR` nor a local data directory is known.
    NoDataDir,
}

impl DirError {
    /// The message shown for this error.
    pub fn message(&self) -> (r: String)
        ensures
            r@ == "Could not find local data directory"@,
    {
        owned("Could not find local data directory")
    }
}

/// The PVM directory: `$PVM_DIR` when set, else `<local data dir>/pvm`.
pub open spec fn pvm_dir_of(env_pvm_dir: Option<Seq<char>>, data_local_dir: Option<Seq<char>>) -> Option<Seq<char>> {
    match env_pvm_dir {
        Some(d) => Some(d),
        None => match data_local_dir {
            Some(h) => Some(path_join(h, "pvm"@)),
            None => None,
        },
    }
}

/// The PVM directory, from the value of `$PVM_DIR` (when set) and the
/// platform's local data directory (when known).
pub fn get_pvm_dir(env_pvm_dir: Option<&str>, data_local_dir: Option<&str>) -> (r: Result<String, DirError>)
    ensures
        match pvm_dir_of(opt_str(env_pvm_dir), opt_str(data_local_dir)) {
            Some(d) => r matches Ok(x) && x@ == d,
            None => r == Err::<String, DirError>(DirError::NoDataDir),
        },
{
    match env_pvm_dir {
        Some(d) => Ok(owned(d)),
        None => match data_local_dir {
            Some(h) => Ok(join(h, "pvm")),
            None => Err(DirError::NoDataDir),
        },
    }
}

/// `<pvm_dir>/versions`.
pub open spec fn versions_dir_of(pvm_dir: Seq<char>) -> Seq<char> {
    path_join(pvm_dir, "versions"@)
}

/// `<pvm_dir>/versions/<version>/bin`.
pub open spec fn bin_dir_of(pvm_dir: Seq<char>, version: Seq<char>) -> Seq<char> {
    path_join(path_join(versions_dir_of(pvm_dir), version), "bin"@)
}

/// The directory holding every installed version.
pub fn get_versions_dir(pvm_dir: &str) -> (r: String)
    ensures
        r@ == versions_dir_of(pvm_dir@),
{
    join(pvm_dir, "versions")
}

/// The directory holding the binaries of `version`.
pub fn get_version_bin_dir(pvm_dir: &str, version: &str) -> (r: String)
    ensures
        r@ == bin_dir_of(pvm_dir@, version@),
{
    let versions = get_versions_dir(pvm_dir);
    let dir = join(versions.as_str(), version);
    join(dir.as_str(), "bin")
}

/// The `php.ini` that pvm manages for `version`: `<versions>/<version>/php.ini`.
pub fn get_version_php_ini_path(pvm_dir: &str, version: &str) -> (r: String)
    ensures
        r@ == path_join(path_join(versions_dir_of(pvm_dir@), version@), "php.ini"@),
{
    let versions = get_versions_dir(pvm_dir);
    let dir = join(versions.as_str(), version);
    join(dir.as_str(), "php.ini")
}

/// The file the shell wrapper evaluates: `$PVM_ENV_UPDATE_PATH` when set,
/// else `<pvm_dir>/.env_update`.
pub fn get_env_update_path(env_override: Option<&str>, pvm_dir: &str) -> (r: String)
    ensures
        r@ == match env_override {
            Some(p) => p@,
            None => path_join(pvm_dir@, ENV_UPDATE_FILE@),
        },
{
    match env_override {
        Some(p) => owned(p),
        None => join(pvm_dir, ENV_UPDATE_FILE),
    }
}

/// The file that holds the default version: `<pvm_dir>/default`.
pub fn get_default_version_path(pvm_dir: &str) -> (r: String)
    ensures
        r@ == path_join(pvm_dir@, DEFAULT_VERSION_FILE@),
{
    join(pvm_dir, DEFAULT_VERSION_FILE)
}

/// The default version a file holds: its trimmed contents, unless empty.
pub open spec fn default_version_of(content: Option<Seq<char>>) -> Option<Seq<char>> {
    match content {
        Some(c) => if trim(c).len() > 0 {
            Some(trim(c))
        } else {
            None
        },
        None => None,
    }
}

/// The version new shells start on, from the contents of the default-version
/// file (`None` when it could not be read).
pub fn get_default_version(content: Option<&str>) -> (r: Option<String>)
    ensures
        opt_string(r) == default_version_of(opt_str(content)),
{
    match content {
        Some(c) => {
            let t = trim_str(c);
            if t.as_str().is_empty() {
                None
            } else {
                Some(t)
            }
        },
        None => None,
    }
}

// ---------------------------------------------------------------------------
// The active version
// ---------------------------------------------------------------------------

/// The named pieces of a path: non-empty and other than `.`.
pub open spec fn path_names(p: Seq<char>) -> Seq<Seq<char>> {
    split(p, '/').filter(|x: Seq<char>| x.len() > 0 && x != "."@)
}

/// The version a multishell path (`<versions>/<version>/bin`) points at: the
/// name of its parent directory, when that is a plain name.
pub open spec fn version_of_multishell(path: Seq<char>) -> Option<Seq<char>> {
    let names = path_names(path);
    if names.len() >= 2 && names[names.len() - 2] != ".."@ {
        Some(names[names.len() - 2])
    } else {
        None
    }
}

/// The active version: the parent directory's name of `$PVM_MULTISHELL_PATH`
/// (when set and it has one), else `system`.
pub fn get_current_version(multishell_path: Option<&str>) -> (r: String)
    ensures
        r@ == match multishell_path {
            Some(p) => match version_of_multishell(p@) {
                Some(v) => v,
                None => "system"@,
            },
            None => "system"@,
        },
{
    match multishell_path {
        Some(p) => {
            let pieces = split_char(p, '/');
            proof {
                assert(views(pieces@) =~= split(p@, '/'));
            }
            let names = named_of(&pieces);
            if names.len() >= 2 && !crate::text::str_eq(names[names.len() - 2].as_str(), "..") {
                names[names.len() - 2].clone()
            } else {
                owned("system")
            }
        },
        None => owned("system"),
    }
}

/// The non-empty pieces other than `.`.
fn named_of(pieces: &Vec<String>) -> (r: Vec<String>)
    ensures
        views(r@) == views(pieces@).filter(|x: Seq<char>| x.len() > 0 && x != "."@),
{
    let ghost ps = views(pieces@);
    let ghost f = |x: Seq<char>| x.len() > 0 && x != "."@;
    let mut r: Vec<String> = Vec::new();
    let mut i: usize = 0;
    while i < pieces.len()
        invariant
            i <= pieces.len(),
            ps == views(pieces@),
            f == (|x: Seq<char>| x.len() > 0 && x != "."@),
            views(r@) == ps.take(i as int).filter(f),
        decreases pieces.len() - i,
    {
        proof {
            assert(ps.take(i + 1) =~= ps.take(i as int).push(ps[i as int]));
            ps.take(i as int).lemma_filter_push(ps[i as int], f);
            reveal_strlit(".");
        }
        let keep = !pieces[i].as_str().is_empty() && !crate::text::str_eq(pieces[i].as_str(), ".");
        if keep {
            let ghost before = r@;
            r.push(pieces[i].clone());
            assert(views(r@) =~= views(before).push(pieces@[i as int]@));
        }
        i = i + 1;
    }
    assert(ps.take(pieces.len() as int) =~= ps);
    r
}

// ---------------------------------------------------------------------------
// PATH
// ---------------------------------------------------------------------------

/// The entries of a PATH value (as `std::env::split_paths` on Unix: the
/// pieces between `:`).
pub open spec fn path_entries(path_var: Seq<char>) -> Seq<Seq<char>> {
    split(path_var, ':')
}

/// The entries that do not lie under `versions_dir`.
pub open spec fn outside_versions(entries: Seq<Seq<char>>, versions_dir: Seq<char>) -> Seq<Seq<char>> {
    entries.filter(|e: Seq<char>| !path_starts_with(e, versions_dir))
}

/// The inherited PATH with every `$PVM_DIR/versions` entry dropped: the
/// base an activation prepends to, so repeated switches cannot stack
/// duplicates. `path_var` is the value of `$PATH` (empty when unset).
pub fn path_without_versions(pvm_dir: &str, path_var: &str) -> (r: Vec<String>)
    ensures
        views(r@) == outside_versions(path_entries(path_var@), versions_dir_of(pvm_dir@)),
{
    let versions_dir = get_versions_dir(pvm_dir);
    let entries = split_char(path_var, ':');
    proof {
        assert(views(entries@) =~= split(path_var@, ':'));
    }
    keep_outside(&entries, versions_dir.as_str())
}

/// The entries of `entries` that do not lie under `versions_dir`.
pub fn keep_outside(entries: &Vec<String>, versions_dir: &str) -> (r: Vec<String>)
    ensures
        views(r@) == outside_versions(views(entries@), versions_dir@),
{
    let ghost es = views(entries@);
    let ghost f = |e: Seq<char>| !path_starts_with(e, versions_dir@);
    let mut r: Vec<String> = Vec::new();
    let mut i: usize = 0;
    while i < entries.len()
        invariant
            i <= entries.len(),
            es == views(entries@),
            f == (|e: Seq<char>| !path_starts_with(e, versions_dir@)),
            views(r@) == es.take(i as int).filter(f),
        decreases entries.len() - i,
    {
        proof {
            assert(es.take(i + 1) =~= es.take(i as int).push(es[i as int]));
            es.take(i as int).lemma_filter_push(es[i as int], f);
        }
        if !starts_with_path(entries[i].as_str(), versions_dir) {
            let ghost before = r@;
            r.push(entries[i].clone());
            assert(views(r@) =~= views(before).push(entries@[i as int]@));
        }
        i = i + 1;
    }
    assert(es.take(entries.len() as int) =~= es);
    r
}

} // verus!

verus! {

// ---------------------------------------------------------------------------
// Installed versions
// ---------------------------------------------------------------------------

/// One entry of `<pvm_dir>/versions`, as read from disk: its name, whether
/// it is a directory, and which package binaries its `bin` holds.
#[derive(Clone, Debug)]
pub struct VersionDir {
    pub name: String,
    pub is_dir: bool,
    /// `bin/php` exists (the `cli` package).
    pub has_php: bool,
    /// `bin/php-fpm` exists (the `fpm` package).
    pub has_fpm: bool,
    /// `bin/micro.sfx` exists (the `micro` package).
    pub has_micro: bool,
}

/// The packages whose binaries are present, in the order cli, fpm, micro.
pub open spec fn packages_of_flags(php: bool, fpm: bool, micro: bool) -> Seq<Seq<char>> {
    (if php {
        seq!["cli"@]
    } else {
        seq![]
    }) + (if fpm {
        seq!["fpm"@]
    } else {
        seq![]
    }) + (if micro {
        seq!["micro"@]
    } else {
        seq![]
    })
}

/// Position of the first entry named `version`, or -1.
pub open spec fn dir_index(dirs: Seq<VersionDir>, version: Seq<char>) -> int
    decreases dirs.len(),
{
    if dirs.len() == 0 {
        -1
    } else if dir_index(dirs.drop_last(), version) >= 0 {
        dir_index(dirs.drop_last(), version)
    } else if dirs.last().name@ == version {
        dirs.len() - 1
    } else {
        -1
    }
}

/// The installed packages of `version` (none when it has no entry).
pub open spec fn packages_of(dirs: Seq<VersionDir>, version: Seq<char>) -> Seq<Seq<char>> {
    let i = dir_index(dirs, version);
    if i < 0 {
        seq![]
    } else {
        packages_of_flags(dirs[i].has_php, dirs[i].has_fpm, dirs[i].has_micro)
    }
}

proof fn lemma_dir_index(dirs: Seq<VersionDir>, version: Seq<char>)
    ensures
        -1 <= dir_index(dirs, version) < dirs.len(),
        dir_index(dirs, version) >= 0 ==> dirs[dir_index(dirs, version)].name@ == version,
        dir_index(dirs, version) >= 0 ==> forall|k: int|
            0 <= k < dir_index(dirs, version) ==> dirs[k].name@ != version,
        dir_index(dirs, version) < 0 ==> forall|k: int| 0 <= k < dirs.len() ==> dirs[k].name@ != version,
    decreases dirs.len(),
{
    if dirs.len() > 0 {
        lemma_dir_index(dirs.drop_last(), version);
        assert forall|k: int| 0 <= k < dirs.len() - 1 implies dirs.drop_last()[k] == dirs[k] by {}
    }
}

/// Position of the entry named `version`.
fn find_dir(dirs: &[VersionDir], version: &str) -> (r: Option<usize>)
    ensures
        match r {
            Some(i) => dir_index(dirs@, version@) == i,
            None => dir_index(dirs@, version@) == -1,
        },
{
    let mut i: usize = 0;
    while i < dirs.len()
        invariant
            i <= dirs.len(),
            dir_index(dirs@.take(i as int), version@) == -1,
        decreases dirs.len() - i,
    {
        proof {
            assert(dirs@.take(i + 1).drop_last() =~= dirs@.take(i as int));
        }
        if crate::text::str_eq(dirs[i].name.as_str(), version) {
            proof {
                prefix_index(dirs@, version@, i as int + 1);
                assert(dirs@.take(i + 1) =~= dirs@.take(i as int + 1));
            }
            return Some(i);
        }
        i = i + 1;
    }
    assert(dirs@.take(dirs.len() as int) =~= dirs@);
    None
}

/// `dir_index` of a prefix that holds the first match.
proof fn prefix_index(dirs: Seq<VersionDir>, version: Seq<char>, n: int)
    requires
        0 < n <= dirs.len(),
        dir_index(dirs.take(n - 1), version) == -1,
        dirs[n - 1].name@ == version,
    ensures
        dir_index(dirs, version) == n - 1,
    decreases dirs.len(),
{
    assert(dirs.take(n).drop_last() =~= dirs.take(n - 1));
    if n < dirs.len() {
        assert(dirs.drop_last().take(n - 1) =~= dirs.take(n - 1));
        prefix_index(dirs.drop_last(), version, n);
    }
}

/// The packages installed for `version`: `cli` when `bin/php` exists, `fpm`
/// when `bin/php-fpm` does, `micro` when `bin/micro.sfx` does.
pub fn get_installed_packages(dirs: &[VersionDir], version: &str) -> (r: Vec<String>)
    ensures
        views(r@) == packages_of(dirs@, version@),
{
    let mut pkgs: Vec<String> = Vec::new();
    proof {
        lemma_dir_index(dirs@, version@);
    }
    match find_dir(dirs, version) {
        Some(i) => {
            let d = &dirs[i];
            if d.has_php {
                pkgs.push(owned("cli"));
            }
            if d.has_fpm {
                pkgs.push(owned("fpm"));
            }
            if d.has_micro {
                pkgs.push(owned("micro"));
            }
            assert(views(pkgs@) =~= packages_of_flags(d.has_php, d.has_fpm, d.has_micro));
        },
        None => {
            assert(views(pkgs@) =~= Seq::<Seq<char>>::empty());
        },
    }
    pkgs
}

/// `version` is installed: its `bin/php` exists.
pub open spec fn installed(dirs: Seq<VersionDir>, version: Seq<char>) -> bool {
    dir_index(dirs, version) >= 0 && dirs[dir_index(dirs, version)].has_php
}

/// Whether `version` is installed (its `bin/php` exists).
pub fn is_version_installed(dirs: &[VersionDir], version: &str) -> (r: bool)
    ensures
        r == installed(dirs@, version@),
{
    proof {
        lemma_dir_index(dirs@, version@);
    }
    match find_dir(dirs, version) {
        Some(i) => dirs[i].has_php,
        None => false,
    }
}

/// The names of the directory entries, in listing order.
pub open spec fn dir_names(dirs: Seq<VersionDir>) -> Seq<Seq<char>>
    decreases dirs.len(),
{
    if dirs.len() == 0 {
        seq![]
    } else if dirs.last().is_dir {
        dir_names(dirs.drop_last()).push(dirs.last().name@)
    } else {
        dir_names(dirs.drop_last())
    }
}

/// The installed versions: the names of the directories under
/// `<pvm_dir>/versions`, ordered by semantic version (names that are not
/// semantic versions first, in listing order; the versions by precedence,
/// so that patches of one line stand in patch order).
pub fn list_installed_versions(dirs: &[VersionDir]) -> (r: Vec<String>)
    ensures
        views(r@).to_multiset() == dir_names(dirs@).to_multiset(),
        crate::precedence::sorted_by(crate::precedence::Order::Installed, r@),
        crate::precedence::semver_ordered_names(views(r@)),
        crate::precedence::unversioned(views(r@)) == crate::precedence::unversioned(dir_names(dirs@)),
{
    let mut names: Vec<String> = Vec::new();
    let mut i: usize = 0;
    while i < dirs.len()
        invariant
            i <= dirs.len(),
            views(names@) == dir_names(dirs@.take(i as int)),
        decreases dirs.len() - i,
    {
        proof {
            assert(dirs@.take(i + 1).drop_last() =~= dirs@.take(i as int));
        }
        if dirs[i].is_dir {
            let ghost before = names@;
            names.push(dirs[i].name.clone());
            assert(views(names@) =~= views(before).push(dirs@[i as int].name@));
        }
        i = i + 1;
    }
    assert(dirs@.take(dirs.len() as int) =~= dirs@);
    let ghost before = names@;
    let sorted = crate::precedence::sort_by_name(names, crate::precedence::Order::Installed);
    proof {
        lemma_views_multiset(before, sorted@);
        assert(crate::precedence::names_in(sorted@) =~= views(sorted@));
        assert(crate::precedence::names_in(before) =~= views(before));
        crate::precedence::law_installed_order_is_semver_order(sorted@);
    }
    sorted
}

/// Sequences of strings with equal multisets have views with equal multisets.
pub proof fn lemma_views_multiset(a: Seq<String>, b: Seq<String>)
    requires
        a.to_multiset() == b.to_multiset(),
    ensures
        views(a).to_multiset() == views(b).to_multiset(),
{
    crate::text::lemma_multiset_map(a, b, |s: String| s@);
}

} // verus!

verus! {

// ---------------------------------------------------------------------------
// Minor lines and aliases
// ---------------------------------------------------------------------------

/// `major.minor` of a version name: its first two `.`-separated pieces
/// (`"8.3.1"` gives `"8.3"`), or `None` when it has no `.`.
pub open spec fn minor_spec(version: Seq<char>) -> Option<Seq<char>> {
    let p = split(version, '.');
    if p.len() >= 2 {
        Some(p[0] + "."@ + p[1])
    } else {
        None
    }
}

/// "8.3.1" -> "8.3"; None for names without a major.minor prefix.
pub fn minor_of(version: &str) -> (r: Option<String>)
    ensures
        opt_string(r) == minor_spec(version@),
{
    let parts = split_char(version, '.');
    if parts.len() >= 2 {
        let mut out = parts[0].clone();
        crate::text::append_str(&mut out, ".");
        crate::text::append_str(&mut out, parts[1].as_str());
        Some(out)
    } else {
        None
    }
}

/// The last name in `s` whose minor line is `m` (empty when there is none).
pub open spec fn highest_of_minor(s: Seq<Seq<char>>, m: Seq<char>) -> Seq<char>
    decreases s.len(),
{
    if s.len() == 0 {
        seq![]
    } else if minor_spec(s.last()) == Some(m) {
        s.last()
    } else {
        highest_of_minor(s.drop_last(), m)
    }
}

/// Some name in `s` has minor line `m`.
pub open spec fn has_minor(s: Seq<Seq<char>>, m: Seq<char>) -> bool {
    exists|k: int| 0 <= k < s.len() && minor_spec(s[k]) == Some(m)
}

/// The minor lines of the names in `s`.
pub open spec fn minor_set(s: Seq<Seq<char>>) -> Set<Seq<char>> {
    Set::new(|m: Seq<char>| has_minor(s, m))
}

/// Each member of `ms` orders strictly before the next.
pub open spec fn ascending(ms: Seq<Seq<char>>) -> bool {
    forall|i: int| 0 <= i < ms.len() - 1 ==> crate::text::seq_lt(#[trigger] ms[i], ms[i + 1])
}

/// A selectable version: the label shown, the version it stands for, and
/// the packages installed for that version.
#[derive(Debug, Clone, PartialEq)]
pub struct VersionItem {
    pub display: String,
    pub version: String,
    pub packages: Vec<String>,
}

impl View for VersionItem {
    type V = (Seq<char>, Seq<char>, Seq<Seq<char>>);

    open spec fn view(&self) -> Self::V {
        (self.display@, self.version@, views(self.packages@))
    }
}

/// The views of a sequence of items.
pub open spec fn item_views(items: Seq<VersionItem>) -> Seq<(Seq<char>, Seq<char>, Seq<Seq<char>>)> {
    items.map_values(|i: VersionItem| i@)
}

/// The item labelled `display` for `version`.
pub open spec fn item_of(display: Seq<char>, version: Seq<char>, dirs: Seq<VersionDir>) -> (
    Seq<char>,
    Seq<char>,
    Seq<Seq<char>>,
) {
    (display, version, packages_of(dirs, version))
}

/// The items for every name in `s` that lies on minor line `m` (starts with `m.`).
pub open spec fn exact_items(s: Seq<Seq<char>>, m: Seq<char>, dirs: Seq<VersionDir>) -> Seq<
    (Seq<char>, Seq<char>, Seq<Seq<char>>),
>
    decreases s.len(),
{
    if s.len() == 0 {
        seq![]
    } else if crate::text::seq_starts_with(s.last(), m + "."@) {
        exact_items(s.drop_last(), m, dirs).push(item_of(s.last(), s.last(), dirs))
    } else {
        exact_items(s.drop_last(), m, dirs)
    }
}

/// The alias `m (highest)` followed by the exact versions of line `m`.
pub open spec fn minor_group(s: Seq<Seq<char>>, m: Seq<char>, dirs: Seq<VersionDir>) -> Seq<
    (Seq<char>, Seq<char>, Seq<Seq<char>>),
> {
    let h = highest_of_minor(s, m);
    seq![item_of(m + " ("@ + h + ")"@, h, dirs)] + exact_items(s, m, dirs)
}

/// The groups of the lines `ms`, in that order.
pub open spec fn minor_groups(s: Seq<Seq<char>>, ms: Seq<Seq<char>>, dirs: Seq<VersionDir>) -> Seq<
    (Seq<char>, Seq<char>, Seq<Seq<char>>),
>
    decreases ms.len(),
{
    if ms.len() == 0 {
        seq![]
    } else {
        minor_groups(s, ms.drop_last(), dirs) + minor_group(s, ms.last(), dirs)
    }
}

/// The `latest (highest)` item, when anything is installed.
pub open spec fn latest_items(s: Seq<Seq<char>>, dirs: Seq<VersionDir>) -> Seq<
    (Seq<char>, Seq<char>, Seq<Seq<char>>),
> {
    if s.len() == 0 {
        seq![]
    } else {
        seq![item_of("latest ("@ + s.last() + ")"@, s.last(), dirs)]
    }
}

/// Where line `m` belongs in a table ordered by line: the first position
/// whose line does not order before `m`, and whether that line is `m`.
fn locate_minor(table: &Vec<(String, String)>, m: &str) -> (r: (usize, bool))
    ensures
        r.0 <= table@.len(),
        forall|k: int| 0 <= k < r.0 ==> crate::text::seq_lt(#[trigger] table@[k].0@, m@),
        r.1 ==> r.0 < table@.len() && table@[r.0 as int].0@ == m@,
        !r.1 ==> r.0 == table@.len() || crate::text::seq_lt(m@, table@[r.0 as int].0@),
{
    let mut k: usize = 0;
    while k < table.len() && crate::text::str_lt(table[k].0.as_str(), m)
        invariant
            k <= table@.len(),
            forall|j: int| 0 <= j < k ==> crate::text::seq_lt(#[trigger] table@[j].0@, m@),
        decreases table.len() - k,
    {
        k = k + 1;
    }
    if k < table.len() && crate::text::str_eq(table[k].0.as_str(), m) {
        (k, true)
    } else {
        proof {
            if k < table.len() {
                crate::text::lemma_seq_lt_total(m@, table@[k as int].0@);
            }
        }
        (k, false)
    }
}

/// The table of minor lines: each line of `s` once, in ascending order, with
/// its highest name.
pub open spec fn minor_table(table: Seq<(String, String)>, s: Seq<Seq<char>>) -> bool {
    &&& forall|k: int|
        0 <= k < table.len() ==> has_minor(s, #[trigger] table[k].0@) && table[k].1@
            == highest_of_minor(s, table[k].0@)
    &&& forall|m: Seq<char>| has_minor(s, m) ==> exists|k: int| 0 <= k < table.len() && #[trigger] table[k].0@ == m
    &&& forall|k: int| 0 <= k < table.len() - 1 ==> crate::text::seq_lt(#[trigger] table[k].0@, table[k + 1].0@)
}

/// In an ascending table every earlier line orders before every later one.
proof fn lemma_ascending_lt(table: Seq<(String, String)>, j: int, k: int)
    requires
        forall|i: int| 0 <= i < table.len() - 1 ==> crate::text::seq_lt(#[trigger] table[i].0@, table[i + 1].0@),
        0 <= j < k < table.len(),
    ensures
        crate::text::seq_lt(table[j].0@, table[k].0@),
    decreases k - j,
{
    if k > j + 1 {
        lemma_ascending_lt(table, j, k - 1);
        crate::text::lemma_seq_lt_transitive(table[j].0@, table[k - 1].0@, table[k].0@);
    }
}

/// Builds the table of minor lines of `installed`.
pub fn build_minor_table(installed: &[String]) -> (r: Vec<(String, String)>)
    ensures
        minor_table(r@, views(installed@)),
{
    let ghost s = views(installed@);
    let mut table: Vec<(String, String)> = Vec::new();
    let mut i: usize = 0;
    while i < installed.len()
        invariant
            i <= installed.len(),
            s == views(installed@),
            minor_table(table@, s.take(i as int)),
        decreases installed.len() - i,
    {
        let ghost t = s.take(i as int);
        let ghost t1 = s.take(i + 1);
        proof {
            assert(t1.drop_last() =~= t);
            assert(t1.last() == installed@[i as int]@);
            assert forall|w: int| 0 <= w < t.len() implies t1[w] == t[w] by {}
        }
        let v = &installed[i];
        match minor_of(v.as_str()) {
            Some(m) => {
                let ghost old_table = table@;
                let ghost mm = m@;
                let (pos, found) = locate_minor(&table, m.as_str());
                if found {
                    let entry = (m, v.clone());
                    table.set(pos, entry);
                } else {
                    table.insert(pos, (m, v.clone()));
                }
                proof {
                    assert(minor_spec(t1[i as int]) == Some(mm));
                    if !found {
                        old_table.insert_ensures(pos as int, table@[pos as int]);
                        assert(table@ == old_table.insert(pos as int, table@[pos as int]));
                    }
                    // every entry lies on some line of t1, with its highest name
                    assert forall|k: int| 0 <= k < table@.len() implies has_minor(t1, #[trigger] table@[k].0@)
                        && table@[k].1@ == highest_of_minor(t1, table@[k].0@) by {
                        crate::text::lemma_seq_lt_asymmetric(mm, mm);
                        if table@[k].0@ == mm && k != pos {
                            if found {
                                assert(table@[k] == old_table[k]);
                                if k < pos {
                                    lemma_ascending_lt(old_table, k, pos as int);
                                } else {
                                    lemma_ascending_lt(old_table, pos as int, k);
                                }
                            } else if k < pos {
                                assert(table@[k] == old_table[k]);
                            } else {
                                assert(table@[k] == old_table[k - 1]);
                                if k - 1 > pos {
                                    lemma_ascending_lt(old_table, pos as int, k - 1);
                                    crate::text::lemma_seq_lt_transitive(mm, old_table[pos as int].0@, old_table[k - 1].0@);
                                }
                            }
                        }
                        if table@[k].0@ != mm {
                            let k0 = if found || k < pos { k } else { k - 1 };
                            assert(table@[k] == old_table[k0]);
                            let w = choose|w: int| 0 <= w < t.len() && minor_spec(t[w]) == Some(old_table[k0].0@);
                            assert(t1[w] == t[w]);
                        }
                    }
                    // every line of t1 has an entry
                    assert forall|m2: Seq<char>| has_minor(t1, m2) implies exists|k: int|
                        0 <= k < table@.len() && #[trigger] table@[k].0@ == m2 by {
                        if m2 == mm {
                            assert(table@[pos as int].0@ == m2);
                        } else {
                            let w = choose|w: int| 0 <= w < t1.len() && minor_spec(t1[w]) == Some(m2);
                            assert(t[w] == t1[w]);
                            assert(has_minor(t, m2));
                            let k0 = choose|k: int| 0 <= k < old_table.len() && #[trigger] old_table[k].0@ == m2;
                            let k1 = if found || k0 < pos { k0 } else { k0 + 1 };
                            assert(table@[k1] == old_table[k0]);
                        }
                    }
                    // the lines stay in ascending order
                    assert forall|k: int| 0 <= k < table@.len() - 1 implies crate::text::seq_lt(
                        #[trigger] table@[k].0@,
                        table@[k + 1].0@,
                    ) by {
                        if found {
                            assert(table@[k].0@ == old_table[k].0@);
                            assert(table@[k + 1].0@ == old_table[k + 1].0@);
                        } else if k + 1 < pos {
                            assert(table@[k] == old_table[k]);
                            assert(table@[k + 1] == old_table[k + 1]);
                        } else if k + 1 == pos {
                            assert(table@[k] == old_table[k]);
                        } else if k == pos {
                            assert(table@[k + 1] == old_table[k]);
                        } else {
                            assert(table@[k] == old_table[k - 1]);
                            assert(table@[k + 1] == old_table[k]);
                        }
                    }
                }
            },
            None => {
                proof {
                    assert forall|k: int| 0 <= k < table@.len() implies has_minor(t1, #[trigger] table@[k].0@)
                        && table@[k].1@ == highest_of_minor(t1, table@[k].0@) by {
                        let w = choose|w: int| 0 <= w < t.len() && minor_spec(t[w]) == Some(table@[k].0@);
                        assert(t1[w] == t[w]);
                    }
                    assert forall|m2: Seq<char>| has_minor(t1, m2) implies exists|k: int|
                        0 <= k < table@.len() && #[trigger] table@[k].0@ == m2 by {
                        let w = choose|w: int| 0 <= w < t1.len() && minor_spec(t1[w]) == Some(m2);
                        assert(t[w] == t1[w]);
                        assert(has_minor(t, m2));
                    }
                }
            },
        }
        i = i + 1;
    }
    assert(s.take(installed.len() as int) =~= s);
    table
}

/// The items `latest`, then for each minor line in ascending order its
/// alias and its exact versions.
pub open spec fn aliased_items(s: Seq<Seq<char>>, ms: Seq<Seq<char>>, dirs: Seq<VersionDir>) -> Seq<
    (Seq<char>, Seq<char>, Seq<Seq<char>>),
> {
    latest_items(s, dirs) + minor_groups(s, ms, dirs)
}

/// Appends the items of the exact versions on line `m`.
fn push_exact_items(items: &mut Vec<VersionItem>, installed: &[String], m: &str, dirs: &[VersionDir])
    ensures
        item_views(final(items)@) == item_views(old(items)@) + exact_items(views(installed@), m@, dirs@),
{
    let ghost s = views(installed@);
    let ghost start = item_views(items@);
    let mut prefix = owned(m);
    crate::text::append_str(&mut prefix, ".");
    let mut i: usize = 0;
    while i < installed.len()
        invariant
            i <= installed.len(),
            s == views(installed@),
            prefix@ == m@ + "."@,
            item_views(items@) == start + exact_items(s.take(i as int), m@, dirs@),
        decreases installed.len() - i,
    {
        proof {
            assert(s.take(i + 1).drop_last() =~= s.take(i as int));
            assert(s.take(i + 1).last() == installed@[i as int]@);
        }
        let v = &installed[i];
        if crate::text::starts_with(v.as_str(), prefix.as_str()) {
            let item = VersionItem {
                display: v.clone(),
                version: v.clone(),
                packages: get_installed_packages(dirs, v.as_str()),
            };
            let ghost before = items@;
            items.push(item);
            proof {
                assert(item_views(items@) =~= item_views(before).push(items@.last()@));
            }
        }
        i = i + 1;
    }
    assert(s.take(installed.len() as int) =~= s);
}

/// The selectable versions: `latest (<highest>)`, then for each minor line
/// (in ascending order) `<minor> (<highest patch>)` followed by every
/// installed version on that line, oldest first. `installed` is the list
/// `list_installed_versions` gives.
pub fn get_aliased_versions(installed: &[String], dirs: &[VersionDir]) -> (r: Vec<VersionItem>)
    ensures
        exists|ms: Seq<Seq<char>>|
            ascending(ms) && ms.to_set() == minor_set(views(installed@)) && item_views(r@)
                == aliased_items(views(installed@), ms, dirs@),
{
    let ghost s = views(installed@);
    let mut items: Vec<VersionItem> = Vec::new();
    if installed.len() > 0 {
        let h = &installed[installed.len() - 1];
        let mut display = owned("latest (");
        crate::text::append_str(&mut display, h.as_str());
        crate::text::append_str(&mut display, ")");
        items.push(VersionItem { display, version: h.clone(), packages: get_installed_packages(dirs, h.as_str()) });
        proof {
            assert(item_views(items@) =~= latest_items(s, dirs@));
        }
    } else {
        proof {
            assert(item_views(items@) =~= latest_items(s, dirs@));
        }
    }
    let table = build_minor_table(installed);
    let ghost ms = table@.map_values(|e: (String, String)| e.0@);
    let mut k: usize = 0;
    while k < table.len()
        invariant
            k <= table@.len(),
            s == views(installed@),
            ms == table@.map_values(|e: (String, String)| e.0@),
            minor_table(table@, s),
            item_views(items@) == latest_items(s, dirs@) + minor_groups(s, ms.take(k as int), dirs@),
        decreases table.len() - k,
    {
        let m = &table[k].0;
        let h = &table[k].1;
        let mut display = m.clone();
        crate::text::append_str(&mut display, " (");
        crate::text::append_str(&mut display, h.as_str());
        crate::text::append_str(&mut display, ")");
        let ghost before = items@;
        items.push(VersionItem { display, version: h.clone(), packages: get_installed_packages(dirs, h.as_str()) });
        proof {
            assert(item_views(items@) =~= item_views(before).push(items@.last()@));
        }
        let ghost mid = items@;
        push_exact_items(&mut items, installed, m.as_str(), dirs);
        proof {
            assert(ms.take(k + 1).drop_last() =~= ms.take(k as int));
            assert(ms.take(k + 1).last() == m@);
            let g = minor_group(s, m@, dirs@);
            assert(item_views(items@) =~= latest_items(s, dirs@) + minor_groups(s, ms.take(k as int), dirs@) + g);
        }
        k = k + 1;
    }
    proof {
        assert(ms.take(table@.len() as int) =~= ms);
        assert forall|i: int| 0 <= i < ms.len() - 1 implies crate::text::seq_lt(#[trigger] ms[i], ms[i + 1]) by {
            assert(ms[i] == table@[i].0@);
        }
        assert forall|m: Seq<char>| ms.to_set().contains(m) <==> minor_set(s).contains(m) by {
            if ms.to_set().contains(m) {
                let i = choose|i: int| 0 <= i < ms.len() && ms[i] == m;
                assert(has_minor(s, table@[i].0@));
            }
            if has_minor(s, m) {
                let i = choose|i: int| 0 <= i < table@.len() && #[trigger] table@[i].0@ == m;
                assert(ms[i] == m);
            }
        }
        assert(ms.to_set() =~= minor_set(s));
    }
    items
}

// ---------------------------------------------------------------------------
// Resolving a requested version against the installed ones
// ---------------------------------------------------------------------------

/// The last name in `s` that starts with `p`.
pub open spec fn last_with_prefix(s: Seq<Seq<char>>, p: Seq<char>) -> Option<Seq<char>>
    decreases s.len(),
{
    if s.len() == 0 {
        None
    } else if crate::text::seq_starts_with(s.last(), p) {
        Some(s.last())
    } else {
        last_with_prefix(s.drop_last(), p)
    }
}

/// The installed version a request names: for `latest` the last installed
/// one; a request that is installed as written names itself; otherwise the
/// last installed version that starts with `<requested>.` (the newest patch
/// of a `major.minor` request, since the list is sorted).
pub open spec fn local_resolution(s: Seq<Seq<char>>, requested: Seq<char>) -> Option<Seq<char>> {
    if requested == "latest"@ {
        if s.len() == 0 {
            None
        } else {
            Some(s.last())
        }
    } else if s.contains(requested) {
        Some(requested)
    } else {
        last_with_prefix(s, requested + "."@)
    }
}

/// The last installed name that starts with `p`.
fn last_starting_with(installed: &[String], p: &str) -> (r: Option<String>)
    ensures
        opt_string(r) == last_with_prefix(views(installed@), p@),
{
    let ghost s = views(installed@);
    let mut found: Option<String> = None;
    let mut i: usize = 0;
    while i < installed.len()
        invariant
            i <= installed.len(),
            s == views(installed@),
            opt_string(found) == last_with_prefix(s.take(i as int), p@),
        decreases installed.len() - i,
    {
        proof {
            assert(s.take(i + 1).drop_last() =~= s.take(i as int));
            assert(s.take(i + 1).last() == installed@[i as int]@);
        }
        if crate::text::starts_with(installed[i].as_str(), p) {
            found = Some(installed[i].clone());
        }
        i = i + 1;
    }
    assert(s.take(installed.len() as int) =~= s);
    found
}

/// Whether `installed` holds `name`.
pub fn contains_name(installed: &[String], name: &str) -> (r: bool)
    ensures
        r == views(installed@).contains(name@),
{
    let mut i: usize = 0;
    while i < installed.len()
        invariant
            i <= installed.len(),
            forall|k: int| 0 <= k < i ==> installed@[k]@ != name@,
        decreases installed.len() - i,
    {
        if crate::text::str_eq(installed[i].as_str(), name) {
            assert(views(installed@)[i as int] == name@);
            return true;
        }
        i = i + 1;
    }
    proof {
        if views(installed@).contains(name@) {
            let k = choose|k: int| 0 <= k < views(installed@).len() && views(installed@)[k] == name@;
            assert(installed@[k]@ == name@);
        }
    }
    false
}

/// The installed version that `requested` names (`latest`, an exact
/// version, or a `major.minor` prefix), if any. `installed` is the list
/// `list_installed_versions` gives.
pub fn try_resolve_local_version(installed: &[String], requested: &str) -> (r: Option<String>)
    ensures
        opt_string(r) == local_resolution(views(installed@), requested@),
{
    if crate::text::str_eq(requested, "latest") {
        if installed.len() == 0 {
            return None;
        } else {
            return Some(installed[installed.len() - 1].clone());
        }
    }
    if contains_name(installed, requested) {
        return Some(owned(requested));
    }
    let mut prefix = owned(requested);
    crate::text::append_str(&mut prefix, ".");
    last_starting_with(installed, prefix.as_str())
}

/// Why a requested version has no local installation.
#[derive(Clone, Debug, PartialEq)]
pub enum ResolveError {
    /// `latest` was requested and nothing is installed.
    NothingInstalled,
    /// The requested version is not installed.
    NotInstalled(String),
}

impl ResolveError {
    /// The text of the message for this error.
    pub open spec fn message_text(&self) -> Seq<char> {
        match self {
            ResolveError::NothingInstalled => "No PHP versions are currently installed."@,
            ResolveError::NotInstalled(v) => "PHP "@ + v@ + " is not installed locally."@,
        }
    }

    /// The message shown for this error.
    pub fn message(&self) -> (r: String)
        ensures
            r@ == self.message_text(),
    {
        match self {
            ResolveError::NothingInstalled => owned("No PHP versions are currently installed."),
            ResolveError::NotInstalled(v) => {
                let mut out = owned("PHP ");
                crate::text::append_str(&mut out, v.as_str());
                crate::text::append_str(&mut out, " is not installed locally.");
                out
            },
        }
    }
}

/// The installed version that `requested` names, or why there is none.
pub fn resolve_local_version(installed: &[String], requested: &str) -> (r: Result<String, ResolveError>)
    ensures
        match local_resolution(views(installed@), requested@) {
            Some(v) => r matches Ok(x) && x@ == v,
            None => if requested@ == "latest"@ {
                r matches Err(ResolveError::NothingInstalled)
            } else {
                r matches Err(ResolveError::NotInstalled(x)) && x@ == requested@
            },
        },
{
    match try_resolve_local_version(installed, requested) {
        Some(v) => Ok(v),
        None => {
            if crate::text::str_eq(requested, "latest") {
                Err(ResolveError::NothingInstalled)
            } else {
                Err(ResolveError::NotInstalled(owned(requested)))
            }
        },
    }
}

} // verus!

verus! {

// ---------------------------------------------------------------------------
// Aliases and resolution agree
// ---------------------------------------------------------------------------

/// For a line `a.b`, the names other than `a.b` itself that start with
/// `a.b.` are exactly those on that line.
proof fn lemma_prefix_iff_line(x: Seq<char>, a: Seq<char>, b: Seq<char>)
    requires
        crate::text::no_char(a, '.'),
        crate::text::no_char(b, '.'),
        x != a + "."@ + b,
    ensures
        crate::text::seq_starts_with(x, a + "."@ + b + "."@) <==> minor_spec(x) == Some(a + "."@ + b),
{
    reveal_strlit(".");
    let m = a + "."@ + b;
    let p = split(x, '.');
    crate::paths::lemma_split_pieces_lack(x, '.');
    crate::paths::lemma_split_len(x, '.');
    if crate::text::seq_starts_with(x, m + "."@) {
        let rest = x.skip(m.len() as int + 1);
        assert("."@ =~= seq!['.']);
        assert(x.subrange(0, m.len() as int + 1) == m + "."@);
        assert(x =~= x.subrange(0, m.len() as int + 1) + rest);
        assert(x =~= a + seq!['.'] + (b + seq!['.'] + rest));
        crate::paths::lemma_split_concat(a, b + seq!['.'] + rest, '.');
        crate::paths::lemma_split_concat(b, rest, '.');
        crate::paths::lemma_split_plain(a, '.');
        crate::paths::lemma_split_plain(b, '.');
        assert(p[0] == a);
        assert(p[1] == b);
    }
    if minor_spec(x) == Some(m) {
        let p0 = p[0];
        let p1 = p[1];
        assert(crate::text::no_char(p0, '.'));
        assert(crate::text::no_char(p1, '.'));
        assert(p0 + "."@ + p1 == m);
        if p0.len() < a.len() {
            assert((p0 + "."@ + p1)[p0.len() as int] == '.');
            assert(m[p0.len() as int] == a[p0.len() as int]);
        }
        if p0.len() > a.len() {
            assert(m[a.len() as int] == '.');
            assert((p0 + "."@ + p1)[a.len() as int] == p0[a.len() as int]);
        }
        assert(p0 =~= m.subrange(0, a.len() as int));
        assert(p0 =~= a);
        assert(p1 =~= m.skip(a.len() as int + 1));
        assert(p1 =~= b);
        crate::paths::lemma_join_split(x, '.');
        let head = p.take(2);
        assert(head.drop_last() =~= seq![a]);
        assert(crate::text::join(seq![a], seq!['.']) == a);
        assert(crate::text::join(head, seq!['.']) =~= m);
        if p.len() == 2 {
            assert(head =~= p);
        } else {
            let tail = p.skip(2);
            assert(head + tail =~= p);
            crate::paths::lemma_join_concat(head, tail, seq!['.']);
            let j = crate::text::join(tail, seq!['.']);
            assert(x == m + seq!['.'] + j);
            assert(x.subrange(0, m.len() as int + 1) =~= m + "."@);
        }
    }
}

/// Among names that do not include the line `a.b` itself, the last one
/// starting with `a.b.` is the newest of that line.
proof fn lemma_last_with_prefix_is_highest(s: Seq<Seq<char>>, a: Seq<char>, b: Seq<char>)
    requires
        crate::text::no_char(a, '.'),
        crate::text::no_char(b, '.'),
        !s.contains(a + "."@ + b),
    ensures
        last_with_prefix(s, a + "."@ + b + "."@) == if has_minor(s, a + "."@ + b) {
            Some(highest_of_minor(s, a + "."@ + b))
        } else {
            None
        },
    decreases s.len(),
{
    let m = a + "."@ + b;
    if s.len() > 0 {
        let init = s.drop_last();
        assert(!init.contains(m)) by {
            if init.contains(m) {
                let k = choose|k: int| 0 <= k < init.len() && init[k] == m;
                assert(s[k] == m);
            }
        }
        lemma_last_with_prefix_is_highest(init, a, b);
        assert(s[s.len() - 1] == s.last());
        lemma_prefix_iff_line(s.last(), a, b);
        if has_minor(s, m) && minor_spec(s.last()) != Some(m) {
            let k = choose|k: int| 0 <= k < s.len() && minor_spec(s[k]) == Some(m);
            assert(k < s.len() - 1);
            assert(init[k] == s[k]);
        }
        if has_minor(init, m) {
            let k = choose|k: int| 0 <= k < init.len() && minor_spec(init[k]) == Some(m);
            assert(s[k] == init[k]);
        }
    }
}

/// The alias line `a.b (newest)` that `pvm ls` shows for an installed
/// version's line names the version that resolving `a.b` (as `pvm use a.b`
/// does) gives: the newest installed patch of that line. This holds unless
/// a version is installed under the line's own name, which resolves to
/// itself.
pub proof fn law_line_resolves_to_newest(s: Seq<Seq<char>>, v: Seq<char>)
    requires
        s.contains(v),
        minor_spec(v) is Some,
        !s.contains(minor_spec(v)->0),
    ensures
        local_resolution(s, minor_spec(v)->0) == Some(highest_of_minor(s, minor_spec(v)->0)),
{
    reveal_strlit(".");
    reveal_strlit("latest");
    let p = split(v, '.');
    crate::paths::lemma_split_pieces_lack(v, '.');
    let a = p[0];
    let b = p[1];
    let m = a + "."@ + b;
    assert(crate::text::no_char(a, '.'));
    assert(crate::text::no_char(b, '.'));
    assert(m[a.len() as int] == '.');
    assert(m != "latest"@) by {
        if m == "latest"@ {
            assert("latest"@[a.len() as int] == '.');
        }
    }
    let k = choose|k: int| 0 <= k < s.len() && s[k] == v;
    assert(has_minor(s, m));
    lemma_last_with_prefix_is_highest(s, a, b);
}

} // verus!
