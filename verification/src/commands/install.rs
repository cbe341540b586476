//! `pvm install`: which packages to fetch and what to do after installing.
use crate::fs::{ascending, build_minor_table, minor_table};
use crate::text::{
    append_str, clone_strings, contains_str, join, join_with, owned, views,
};
use vstd::prelude::*;

verus! {

/// Install a specific PHP version.
#[derive(Clone, Debug, PartialEq)]
pub struct Install {
    /// The version to install, or "latest".
    pub version: Option<String>,
    /// Packages to install without prompting (cli, fpm, micro).
    pub packages: Vec<String>,
    /// Auto-approve prompts.
    pub yes: bool,
}

/// Why an installation cannot proceed.
#[derive(Clone, Debug, PartialEq)]
pub enum InstallError {
    /// The index lists no package for the resolved version.
    NoPackages(String),
    /// A requested package is not offered: package, version, offered packages.
    PackageUnavailable(String, String, String),
    /// Packages must be chosen without a prompt and `cli` is not offered:
    /// version, offered packages.
    NoDefaultPackage(String, String),
    /// No version was given and there is no terminal to pick one.
    NoVersionGiven,
}

impl InstallError {
    /// The message shown for this error.
    pub fn message(&self) -> (r: String)
        ensures
            r@ == match self {
                InstallError::NoPackages(v) => "No packages found for PHP "@ + v@,
                InstallError::PackageUnavailable(p, v, a) => "Package '"@ + p@ + "' is not available for PHP "@
                    + v@ + " (available: "@ + a@ + ")"@,
                InstallError::NoDefaultPackage(v, a) =>
                    "Cannot auto-select packages: the default 'cli' package is not available for PHP "@
                    + v@ + " (available: "@ + a@ + "). Use --packages."@,
                InstallError::NoVersionGiven => "No version given. Usage: pvm install <version>"@,
            },
    {
        match self {
            InstallError::NoPackages(v) => {
                let mut out = owned("No packages found for PHP ");
                append_str(&mut out, v.as_str());
                out
            },
            InstallError::PackageUnavailable(p, v, a) => {
                let mut out = owned("Package '");
                append_str(&mut out, p.as_str());
                append_str(&mut out, "' is not available for PHP ");
                append_str(&mut out, v.as_str());
                append_str(&mut out, " (available: ");
                append_str(&mut out, a.as_str());
                append_str(&mut out, ")");
                out
            },
            InstallError::NoDefaultPackage(v, a) => {
                let mut out = owned(
                    "Cannot auto-select packages: the default 'cli' package is not available for PHP ",
                );
                append_str(&mut out, v.as_str());
                append_str(&mut out, " (available: ");
                append_str(&mut out, a.as_str());
                append_str(&mut out, "). Use --packages.");
                out
            },
            InstallError::NoVersionGiven => owned("No version given. Usage: pvm install <version>"),
        }
    }
}

/// The first listed entry for `version`, or -1.
pub open spec fn first_entry(versions: Seq<(String, Vec<String>)>, version: Seq<char>) -> int {
    if exists|k: int| 0 <= k < versions.len() && #[trigger] versions[k].0@ == version {
        choose|k: int|
            0 <= k < versions.len() && #[trigger] versions[k].0@ == version && forall|j: int|
                0 <= j < k ==> #[trigger] versions[j].0@ != version
    } else {
        -1
    }
}

/// The packages the listing offers for `version` (as listed with its first
/// entry), or none when it is not listed.
pub open spec fn offered_for(versions: Seq<(String, Vec<String>)>, version: Seq<char>) -> Seq<Seq<char>> {
    if first_entry(versions, version) < 0 {
        seq![]
    } else {
        views(versions[first_entry(versions, version)].1@)
    }
}

/// The packages offered for the resolved version; an error when the index
/// offers none for it (it is not listed, or listed with no package).
pub fn available_packages(versions: &[(String, Vec<String>)], resolved: &str) -> (r: Result<
    Vec<String>,
    InstallError,
>)
    ensures
        match r {
            Ok(p) => offered_for(versions@, resolved@).len() > 0 && views(p@) == offered_for(
                versions@,
                resolved@,
            ),
            Err(e) => offered_for(versions@, resolved@).len() == 0 && (e matches InstallError::NoPackages(
                v,
            ) && v@ == resolved@),
        },
{
    let offered = offered_packages(versions, resolved);
    if offered.len() == 0 {
        Err(InstallError::NoPackages(owned(resolved)))
    } else {
        Ok(offered)
    }
}

/// The packages listed for `resolved` (none when it is not listed).
fn offered_packages(versions: &[(String, Vec<String>)], resolved: &str) -> (r: Vec<String>)
    ensures
        views(r@) == offered_for(versions@, resolved@),
{
    let mut i: usize = 0;
    while i < versions.len()
        invariant
            i <= versions.len(),
            forall|j: int| 0 <= j < i ==> #[trigger] versions@[j].0@ != resolved@,
        decreases versions.len() - i,
    {
        if crate::text::str_eq(versions[i].0.as_str(), resolved) {
            proof {
                assert(versions@[i as int].0@ == resolved@);
                let k = first_entry(versions@, resolved@);
                assert(k == i) by {
                    if k < i {
                        assert(versions@[k].0@ != resolved@);
                    }
                    if k > i {
                        assert(versions@[i as int].0@ != resolved@);
                    }
                }
            }
            return clone_strings(versions[i].1.as_slice());
        }
        i = i + 1;
    }
    let r: Vec<String> = Vec::new();
    assert(views(r@) =~= Seq::<Seq<char>>::empty());
    r
}

/// Installing is a no-op for scripts: nothing was requested explicitly,
/// there is no terminal, and the default `cli` package is already there.
pub fn install_is_noop(requested: &[String], is_tty: bool, already_installed: &[String]) -> (r: bool)
    ensures
        r == (requested@.len() == 0 && !is_tty && views(already_installed@).contains("cli"@)),
{
    requested.len() == 0 && !is_tty && contains_str(already_installed, "cli")
}

/// How the packages to install are chosen.
#[derive(Clone, Debug, PartialEq)]
pub enum PackageSelection {
    /// Install these.
    Chosen(Vec<String>),
    /// Ask, offering every available package, preselecting those marked.
    Ask(Vec<bool>),
}

/// `missing` is the position of the first requested package that is not
/// offered, every earlier one being offered.
pub open spec fn first_missing(requested: Seq<Seq<char>>, available: Seq<Seq<char>>, missing: int) -> bool {
    &&& 0 <= missing < requested.len()
    &&& !available.contains(requested[missing])
    &&& forall|j: int| 0 <= j < missing ==> available.contains(#[trigger] requested[j])
}

/// Which packages to preselect: `cli` for a fresh install, otherwise the
/// ones not yet installed (so "add fpm later" is one Enter away).
pub open spec fn preselect(available: Seq<Seq<char>>, already: Seq<Seq<char>>, i: int) -> bool {
    if already.len() == 0 {
        available[i] == "cli"@
    } else {
        !already.contains(available[i])
    }
}

/// Decide which packages to install: an explicit list is validated against
/// what the remote offers (and may reinstall); without one, `-y` or a
/// non-interactive stdin selects "cli", and a terminal gets a choice with
/// whatever is not yet installed preselected.
pub fn select_packages(
    resolved: &str,
    available: &[String],
    requested: &[String],
    already_installed: &[String],
    assume_yes: bool,
    is_tty: bool,
) -> (r: Result<PackageSelection, InstallError>)
    ensures
        requested@.len() > 0 ==> match r {
            Ok(PackageSelection::Chosen(v)) => views(v@) == views(requested@) && forall|j: int|
                0 <= j < requested@.len() ==> views(available@).contains(#[trigger] requested@[j]@),
            Err(InstallError::PackageUnavailable(p, v, a)) => v@ == resolved@ && a@ == join(
                views(available@),
                ", "@,
            ) && exists|m: int| first_missing(views(requested@), views(available@), m) && p@ == requested@[m]@,
            _ => false,
        },
        requested@.len() == 0 && (assume_yes || !is_tty) ==> if views(available@).contains("cli"@) {
            (r matches Ok(PackageSelection::Chosen(v)) && views(v@) == seq!["cli"@])
        } else {
            (r matches Err(InstallError::NoDefaultPackage(v, a)) && v@ == resolved@ && a@ == join(
                views(available@),
                ", "@,
            ))
        },
        requested@.len() == 0 && !(assume_yes || !is_tty) ==> (r matches Ok(PackageSelection::Ask(d))
            && d@.len() == available@.len() && forall|i: int|
            0 <= i < d@.len() ==> #[trigger] d@[i] == preselect(views(available@), views(already_installed@), i)),
{
    if requested.len() > 0 {
        let mut i: usize = 0;
        while i < requested.len()
            invariant
                i <= requested@.len(),
                forall|j: int| 0 <= j < i ==> views(available@).contains(#[trigger] requested@[j]@),
            decreases requested.len() - i,
        {
            if !contains_str(available, requested[i].as_str()) {
                proof {
                    assert(views(requested@)[i as int] == requested@[i as int]@);
                    assert(first_missing(views(requested@), views(available@), i as int));
                }
                return Err(
                    InstallError::PackageUnavailable(
                        requested[i].clone(),
                        owned(resolved),
                        join_with(available, ", "),
                    ),
                );
            }
            i = i + 1;
        }
        return Ok(PackageSelection::Chosen(clone_strings(requested)));
    }
    if assume_yes || !is_tty {
        if !contains_str(available, "cli") {
            return Err(InstallError::NoDefaultPackage(owned(resolved), join_with(available, ", ")));
        }
        let mut v: Vec<String> = Vec::new();
        v.push(owned("cli"));
        assert(views(v@) =~= seq!["cli"@]);
        return Ok(PackageSelection::Chosen(v));
    }
    let mut d: Vec<bool> = Vec::new();
    let fresh = already_installed.len() == 0;
    let mut i: usize = 0;
    while i < available.len()
        invariant
            i <= available@.len(),
            fresh == (already_installed@.len() == 0),
            d@.len() == i,
            forall|k: int| 0 <= k < i ==> #[trigger] d@[k] == preselect(views(available@), views(already_installed@), k),
        decreases available.len() - i,
    {
        let b = if fresh {
            crate::text::str_eq(available[i].as_str(), "cli")
        } else {
            !contains_str(already_installed, available[i].as_str())
        };
        d.push(b);
        i = i + 1;
    }
    Ok(PackageSelection::Ask(d))
}

/// The packages picked by their positions in `available` (none when nothing
/// was picked).
pub fn packages_from_selection(available: &[String], indices: &[usize]) -> (r: Option<Vec<String>>)
    requires
        forall|i: int| 0 <= i < indices@.len() ==> #[trigger] indices@[i] < available@.len(),
    ensures
        indices@.len() == 0 ==> r is None,
        indices@.len() > 0 ==> (r matches Some(v) && v@.len() == indices@.len() && forall|i: int|
            0 <= i < v@.len() ==> #[trigger] v@[i]@ == available@[indices@[i] as int]@),
{
    if indices.len() == 0 {
        return None;
    }
    let mut v: Vec<String> = Vec::new();
    let mut i: usize = 0;
    while i < indices.len()
        invariant
            i <= indices@.len(),
            forall|k: int| 0 <= k < indices@.len() ==> #[trigger] indices@[k] < available@.len(),
            v@.len() == i,
            forall|k: int| 0 <= k < i ==> #[trigger] v@[k]@ == available@[indices@[k] as int]@,
        decreases indices.len() - i,
    {
        v.push(available[indices[i]].clone());
        i = i + 1;
    }
    Some(v)
}

/// Where `pvm install` starts: the version named (`Some`), or the picker
/// (`None`), which needs a terminal.
pub fn install_request(version: Option<&str>, is_tty: bool) -> (r: Result<Option<String>, InstallError>)
    ensures
        match version {
            Some(v) => (r matches Ok(Some(x)) && x@ == v@),
            None => if is_tty {
                r == Ok::<Option<String>, InstallError>(None)
            } else {
                r == Err::<Option<String>, InstallError>(InstallError::NoVersionGiven)
            },
        },
{
    match version {
        Some(v) => Ok(Some(owned(v))),
        None => {
            if is_tty {
                Ok(None)
            } else {
                Err(InstallError::NoVersionGiven)
            }
        },
    }
}

/// The note for a version that is already installed with `packages`.
pub fn already_installed_message(version: &str, packages: &[String]) -> (r: String)
    ensures
        r@ == "PHP "@ + version@ + " is already installed ["@ + join(views(packages@), ", "@) + "]"@,
{
    let mut out = owned("PHP ");
    append_str(&mut out, version);
    append_str(&mut out, " is already installed [");
    let list = join_with(packages, ", ");
    append_str(&mut out, list.as_str());
    append_str(&mut out, "]");
    out
}

/// Whether a failed installation removes the version's directory: only
/// when this installation created it, so a failed addition of a package
/// never destroys an existing installation.
pub fn removes_on_failure(dest_existed: bool) -> (r: bool)
    ensures
        r == !dest_existed,
{
    !dest_existed
}

/// What follows a successful installation.
#[derive(Clone, Copy, Debug, PartialEq, Eq, Structural)]
pub enum FollowUp {
    /// Return the installed version.
    Return,
    /// Return it, with a hint how to use it later.
    ReturnWithHint,
    /// `cli` was not installed: the version cannot be put on PATH; return nothing.
    CliMissing,
    /// Ask whether to use it now.
    OfferUse,
}

/// What to do after installing: callers that activate on their own
/// (`prompt_activation` off) get the version back; otherwise a terminal (or
/// `-y`) is asked whether to use it now. Only `cli` puts `php` on PATH, so
/// without it the version cannot be activated.
pub open spec fn follow_up_of(prompt_activation: bool, cli_selected: bool, assume_yes: bool, is_tty: bool) -> FollowUp {
    if !prompt_activation {
        if cli_selected {
            FollowUp::Return
        } else {
            FollowUp::CliMissing
        }
    } else if cli_selected && (assume_yes || is_tty) {
        FollowUp::OfferUse
    } else if !cli_selected {
        FollowUp::CliMissing
    } else {
        FollowUp::ReturnWithHint
    }
}

/// A caller that turned the prompt off (`pvm use`, which activates on its
/// own) always gets the version back when `cli` was installed, and is told
/// it cannot be activated otherwise, whether or not there is a terminal or
/// `-y`; installing asks whether to use the version only when the prompt is
/// on, `cli` was installed, and there is a terminal or `-y`.
pub proof fn law_follow_up_respects_the_prompt(prompt_activation: bool, cli_selected: bool, assume_yes: bool, is_tty: bool)
    ensures
        !prompt_activation ==> follow_up_of(prompt_activation, cli_selected, assume_yes, is_tty) == (if cli_selected {
            FollowUp::Return
        } else {
            FollowUp::CliMissing
        }),
        follow_up_of(prompt_activation, cli_selected, assume_yes, is_tty) == FollowUp::OfferUse <==> (prompt_activation
            && cli_selected && (assume_yes || is_tty)),
        !cli_selected ==> follow_up_of(prompt_activation, cli_selected, assume_yes, is_tty) == FollowUp::CliMissing,
{
}

/// What to do after installing `selected`.
pub fn install_follow_up(prompt_activation: bool, selected: &[String], assume_yes: bool, is_tty: bool) -> (r: FollowUp)
    ensures
        r == follow_up_of(prompt_activation, views(selected@).contains("cli"@), assume_yes, is_tty),
        !prompt_activation ==> (r == FollowUp::Return || r == FollowUp::CliMissing),
        !prompt_activation ==> (r == FollowUp::Return <==> views(selected@).contains("cli"@)),
        r == FollowUp::OfferUse <==> (prompt_activation && views(selected@).contains("cli"@) && (assume_yes
            || is_tty)),
{
    proof {
        law_follow_up_respects_the_prompt(prompt_activation, views(selected@).contains("cli"@), assume_yes, is_tty);
    }
    let cli = contains_str(selected, "cli");
    if !prompt_activation {
        if cli {
            FollowUp::Return
        } else {
            FollowUp::CliMissing
        }
    } else if cli && (assume_yes || is_tty) {
        FollowUp::OfferUse
    } else if !cli {
        FollowUp::CliMissing
    } else {
        FollowUp::ReturnWithHint
    }
}

// ---------------------------------------------------------------------------
// Running an installation
// ---------------------------------------------------------------------------

/// The next step of an installation whose packages are being fetched.
#[derive(Clone, Debug, PartialEq)]
pub enum InstallAction {
    /// Download and extract this package next.
    Fetch(String),
    /// Fetching `package` failed: stop, removing the version's directory when
    /// `remove_dir`, and report the failure. Nothing is activated.
    Abort { package: String, remove_dir: bool },
    /// Every package was fetched: report success, then follow up.
    Finish(FollowUp),
}

/// The position of the first failed fetch among the outcomes `results`
/// (true: fetched), counting only the first `n`; -1 when none failed.
pub open spec fn failure_at(results: Seq<bool>, n: int) -> int
    decreases results.len(),
{
    if results.len() == 0 {
        -1
    } else if failure_at(results.drop_last(), n) >= 0 {
        failure_at(results.drop_last(), n)
    } else if results.len() - 1 < n && !results.last() {
        results.len() - 1
    } else {
        -1
    }
}

/// What an installation of `selected` does next, given the outcomes of the
/// fetches made so far (`results`, in order; true: fetched). Packages are
/// fetched one at a time in the order selected; the first failure ends the
/// installation, removing the version's directory only when this
/// installation created it (`dest_existed` false); once every package is
/// fetched, the installation finishes with `install_follow_up`'s answer.
pub fn install_action(
    selected: &[String],
    results: &[bool],
    dest_existed: bool,
    prompt_activation: bool,
    assume_yes: bool,
    is_tty: bool,
) -> (r: InstallAction)
    ensures
        ({
            let k = failure_at(results@, selected@.len() as int);
            if k >= 0 {
                (r matches InstallAction::Abort { package, remove_dir } && package@ == selected@[k]@
                    && remove_dir == !dest_existed)
            } else if results@.len() < selected@.len() {
                (r matches InstallAction::Fetch(p) && p@ == selected@[results@.len() as int]@)
            } else {
                (r matches InstallAction::Finish(f) && f == follow_up_of(
                    prompt_activation,
                    views(selected@).contains("cli"@),
                    assume_yes,
                    is_tty,
                ))
            }
        }),
{
    let n = selected.len();
    let mut i: usize = 0;
    while i < results.len()
        invariant
            i <= results@.len(),
            n == selected@.len(),
            failure_at(results@.take(i as int), n as int) == -1,
        decreases results.len() - i,
    {
        proof {
            assert(results@.take(i + 1).drop_last() =~= results@.take(i as int));
        }
        if i < n && !results[i] {
            proof {
                assert(failure_at(results@.take(i + 1), n as int) == i);
                lemma_failure_is_final(results@.take(i + 1), results@.skip(i + 1), n as int);
                assert(results@.take(i + 1) + results@.skip(i + 1) =~= results@);
            }
            return InstallAction::Abort { package: selected[i].clone(), remove_dir: removes_on_failure(dest_existed) };
        }
        i = i + 1;
    }
    assert(results@.take(results@.len() as int) =~= results@);
    if results.len() < n {
        InstallAction::Fetch(selected[results.len()].clone())
    } else {
        InstallAction::Finish(install_follow_up(prompt_activation, selected, assume_yes, is_tty))
    }
}

/// A failed fetch ends the installation: whatever outcomes come after the
/// first failure, it stays the failure that decides, so `install_action`
/// keeps answering `Abort` for that package and never fetches on or
/// finishes (nothing is activated after a failure).
pub proof fn law_failed_fetch_ends_install(results: Seq<bool>, later: Seq<bool>, n: int)
    requires
        failure_at(results, n) >= 0,
    ensures
        failure_at(results + later, n) == failure_at(results, n),
{
    lemma_failure_is_final(results, later, n);
}

proof fn lemma_failure_is_final(results: Seq<bool>, later: Seq<bool>, n: int)
    requires
        failure_at(results, n) >= 0,
    ensures
        failure_at(results + later, n) == failure_at(results, n),
    decreases later.len(),
{
    if later.len() > 0 {
        lemma_failure_is_final(results, later.drop_last(), n);
        assert((results + later).drop_last() =~= results + later.drop_last());
    } else {
        assert(results + later =~= results);
    }
}

/// An installation finishes only after every selected package was fetched,
/// in order: when `install_action` answers `Finish`, the first `n` outcomes
/// (one per selected package) are all successes.
pub proof fn law_finish_needs_every_package(results: Seq<bool>, n: int)
    requires
        0 <= n <= results.len(),
        failure_at(results, n) < 0,
    ensures
        forall|i: int| 0 <= i < n ==> #[trigger] results[i],
{
    lemma_no_failure_prefix(results, n);
}

/// Without a failure, every outcome among the first `n` is a success.
proof fn lemma_no_failure_prefix(results: Seq<bool>, n: int)
    requires
        failure_at(results, n) < 0,
    ensures
        forall|i: int| 0 <= i < results.len() && i < n ==> #[trigger] results[i],
    decreases results.len(),
{
    if results.len() > 0 {
        let init = results.drop_last();
        lemma_no_failure_prefix(init, n);
        assert forall|i: int| 0 <= i < results.len() && i < n implies #[trigger] results[i] by {
            if i < init.len() {
                assert(init[i] == results[i]);
            }
        }
    }
}

// ---------------------------------------------------------------------------
// Picking a version to install
// ---------------------------------------------------------------------------

/// The kinds of lines of the version picker.
#[derive(Clone, Copy, Debug, PartialEq, Eq, Structural)]
pub enum PickKind {
    /// `latest (<newest>)`.
    Latest,
    /// `<major.minor> (<newest patch>)`.
    Line,
    /// The separator between the quick picks and the full list.
    Divider,
    /// One listed version.
    Version,
}

/// One line of the version picker: its kind, its text (without styling),
/// the version it installs (empty for the divider), whether that version
/// is installed, and its offered packages.
#[derive(Clone, Debug, PartialEq)]
pub struct PickEntry {
    pub kind: PickKind,
    pub label: String,
    pub target: String,
    pub installed: bool,
    pub packages: Vec<String>,
}

impl View for PickEntry {
    type V = (PickKind, Seq<char>, Seq<char>, bool, Seq<Seq<char>>);

    open spec fn view(&self) -> Self::V {
        (self.kind, self.label@, self.target@, self.installed, views(self.packages@))
    }
}

/// The views of picker lines.
pub open spec fn pick_views(e: Seq<PickEntry>) -> Seq<(PickKind, Seq<char>, Seq<char>, bool, Seq<Seq<char>>)> {
    e.map_values(|x: PickEntry| x@)
}

/// The names of a listing.
pub open spec fn listing_names(v: Seq<(String, Vec<String>)>) -> Seq<Seq<char>> {
    v.map_values(|e: (String, Vec<String>)| e.0@)
}

/// The quick-pick lines of the minor lines `ms` (ascending) with their
/// newest patches, newest line first.
pub open spec fn line_picks(names: Seq<Seq<char>>, ms: Seq<Seq<char>>) -> Seq<(PickKind, Seq<char>, Seq<char>, bool, Seq<Seq<char>>)>
    decreases ms.len(),
{
    if ms.len() == 0 {
        seq![]
    } else {
        let m = ms.last();
        let h = crate::fs::highest_of_minor(names, m);
        seq![(PickKind::Line, m + " ("@ + h + ")"@, h, false, seq![])] + line_picks(names, ms.drop_last())
    }
}

/// The full list, newest first, each marked installed or not.
pub open spec fn version_picks(v: Seq<(String, Vec<String>)>, installed: Seq<Seq<char>>) -> Seq<(PickKind, Seq<char>, Seq<char>, bool, Seq<Seq<char>>)>
    decreases v.len(),
{
    if v.len() == 0 {
        seq![]
    } else {
        let e = v.last();
        seq![(PickKind::Version, e.0@, e.0@, installed.contains(e.0@), views(e.1@))] + version_picks(
            v.drop_last(),
            installed,
        )
    }
}

/// The picker for `versions` (the remote listing, oldest first): `latest`,
/// the newest patch of each minor line (newest line first), a divider, then
/// every version, newest first.
pub open spec fn picker_of(
    versions: Seq<(String, Vec<String>)>,
    installed: Seq<Seq<char>>,
    ms: Seq<Seq<char>>,
) -> Seq<(PickKind, Seq<char>, Seq<char>, bool, Seq<Seq<char>>)> {
    if versions.len() == 0 {
        seq![]
    } else {
        let h = versions.last().0@;
        seq![(PickKind::Latest, "latest ("@ + h + ")"@, h, false, seq![])] + line_picks(
            listing_names(versions),
            ms,
        ) + seq![(PickKind::Divider, "---"@, seq![], false, seq![])] + version_picks(versions, installed)
    }
}

/// The names of a listing, as strings.
fn names_of(versions: &[(String, Vec<String>)]) -> (r: Vec<String>)
    ensures
        views(r@) == listing_names(versions@),
{
    let mut r: Vec<String> = Vec::new();
    let mut i: usize = 0;
    while i < versions.len()
        invariant
            i <= versions.len(),
            views(r@) == listing_names(versions@).take(i as int),
        decreases versions.len() - i,
    {
        let ghost before = r@;
        r.push(versions[i].0.clone());
        proof {
            assert(views(r@) =~= views(before).push(versions@[i as int].0@));
            assert(listing_names(versions@).take(i + 1) =~= listing_names(versions@).take(i as int).push(
                versions@[i as int].0@,
            ));
        }
        i = i + 1;
    }
    assert(listing_names(versions@).take(versions.len() as int) =~= listing_names(versions@));
    r
}

/// The lines of the version picker for the remote listing `versions`; none
/// when the listing is empty (there is nothing to pick).
pub fn pick_entries(versions: &[(String, Vec<String>)], installed: &[String]) -> (r: Vec<PickEntry>)
    ensures
        r@.len() == 0 <==> versions@.len() == 0,
        exists|ms: Seq<Seq<char>>|
            ascending(ms) && ms.to_set() == crate::fs::minor_set(listing_names(versions@)) && pick_views(r@)
                == picker_of(versions@, views(installed@), ms),
{
    let mut out: Vec<PickEntry> = Vec::new();
    if versions.len() == 0 {
        proof {
            let ms: Seq<Seq<char>> = seq![];
            assert(pick_views(out@) =~= picker_of(versions@, views(installed@), ms));
            assert(ms.to_set() =~= crate::fs::minor_set(listing_names(versions@)));
        }
        return out;
    }
    let names = names_of(versions);
    let ghost ns = listing_names(versions@);
    let h = &versions[versions.len() - 1].0;
    let mut label = owned("latest (");
    append_str(&mut label, h.as_str());
    append_str(&mut label, ")");
    out.push(PickEntry { kind: PickKind::Latest, label, target: h.clone(), installed: false, packages: Vec::new() });
    let table = build_minor_table(names.as_slice());
    let ghost ms = table@.map_values(|e: (String, String)| e.0@);
    let ghost head = pick_views(out@);
    proof {
        assert(views(out@[0].packages@) =~= Seq::<Seq<char>>::empty());
        assert(out@[0]@ == (PickKind::Latest, "latest ("@ + h@ + ")"@, h@, false, Seq::<Seq<char>>::empty()));
        assert(head =~= seq![(PickKind::Latest, "latest ("@ + h@ + ")"@, h@, false, Seq::<Seq<char>>::empty())]);
    }
    let mut k: usize = table.len();
    while k > 0
        invariant
            k <= table@.len(),
            ns == views(names@),
            ms == table@.map_values(|e: (String, String)| e.0@),
            minor_table(table@, ns),
            ms.len() == table@.len(),
            pick_views(out@) == head + line_picks(ns, ms.skip(k as int)),
        decreases k,
    {
        let m = &table[k - 1].0;
        let hp = &table[k - 1].1;
        let mut lab = m.clone();
        append_str(&mut lab, " (");
        append_str(&mut lab, hp.as_str());
        append_str(&mut lab, ")");
        let ghost before = out@;
        out.push(PickEntry { kind: PickKind::Line, label: lab, target: hp.clone(), installed: false, packages: Vec::new() });
        proof {
            assert(pick_views(out@) =~= pick_views(before).push(out@.last()@));
            assert(views(out@.last().packages@) =~= Seq::<Seq<char>>::empty());
            let mk = ms[k - 1];
            assert(mk == table@[k - 1].0@);
            assert(crate::fs::has_minor(ns, table@[k - 1].0@));
            let single = seq![mk];
            assert(single.drop_last() =~= Seq::<Seq<char>>::empty());
            assert(line_picks(ns, single.drop_last()) =~= Seq::empty());
            assert(line_picks(ns, single) =~= seq![out@.last()@]);
            lemma_line_picks_skip(ns, ms, k as int);
        }
        k = k - 1;
    }
    let ghost before_div = out@;
    out.push(PickEntry { kind: PickKind::Divider, label: owned("---"), target: String::new(), installed: false, packages: Vec::new() });
    proof {
        assert(pick_views(out@) =~= pick_views(before_div).push(out@.last()@));
        assert(views(out@.last().packages@) =~= Seq::<Seq<char>>::empty());
    }
    let ghost mid = pick_views(out@);
    let mut j: usize = versions.len();
    while j > 0
        invariant
            j <= versions@.len(),
            pick_views(out@) == mid + version_picks(versions@.skip(j as int), views(installed@)),
        decreases j,
    {
        let v = &versions[j - 1];
        let inst = contains_str(installed, v.0.as_str());
        let ghost before = out@;
        out.push(PickEntry { kind: PickKind::Version, label: v.0.clone(), target: v.0.clone(), installed: inst, packages: clone_strings(v.1.as_slice()) });
        proof {
            assert(pick_views(out@) =~= pick_views(before).push(out@.last()@));
            let single = seq![versions@[j - 1]];
            assert(single.drop_last() =~= Seq::<(String, Vec<String>)>::empty());
            assert(version_picks(single.drop_last(), views(installed@)) =~= Seq::empty());
            assert(version_picks(single, views(installed@)) =~= seq![out@.last()@]);
            lemma_version_picks_skip(versions@, views(installed@), j as int);
        }
        j = j - 1;
    }
    proof {
        assert(ms.skip(0) =~= ms);
        assert(versions@.skip(0) =~= versions@);
        assert(ms.skip(table@.len() as int) =~= Seq::<Seq<char>>::empty());
        assert forall|i: int| 0 <= i < ms.len() - 1 implies crate::text::seq_lt(#[trigger] ms[i], ms[i + 1]) by {
            assert(ms[i] == table@[i].0@);
        }
        assert forall|m: Seq<char>| ms.to_set().contains(m) <==> crate::fs::minor_set(ns).contains(m) by {
            if ms.to_set().contains(m) {
                let i = choose|i: int| 0 <= i < ms.len() && ms[i] == m;
                assert(crate::fs::has_minor(ns, table@[i].0@));
            }
            if crate::fs::has_minor(ns, m) {
                let i = choose|i: int| 0 <= i < table@.len() && #[trigger] table@[i].0@ == m;
                assert(ms[i] == m);
            }
        }
        assert(ms.to_set() =~= crate::fs::minor_set(ns));
        assert(pick_views(out@) =~= picker_of(versions@, views(installed@), ms));
    }
    out
}

/// `line_picks` over one more line (taken from the back).
proof fn lemma_line_picks_skip(names: Seq<Seq<char>>, ms: Seq<Seq<char>>, k: int)
    requires
        0 < k <= ms.len(),
    ensures
        line_picks(names, ms.skip(k - 1)) == line_picks(names, ms.skip(k)) + line_picks(
            names,
            seq![ms[k - 1]],
        ),
    decreases ms.len() - k,
{
    let s1 = ms.skip(k - 1);
    if k == ms.len() {
        assert(ms.skip(k) =~= Seq::<Seq<char>>::empty());
        assert(s1 =~= seq![ms[k - 1]]);
        assert(line_picks(names, ms.skip(k)) =~= Seq::empty());
    } else {
        lemma_line_picks_skip(names, ms.drop_last(), k);
        assert(s1.drop_last() =~= ms.drop_last().skip(k - 1));
        assert(ms.skip(k).drop_last() =~= ms.drop_last().skip(k));
        assert(s1.last() == ms.last());
        assert(ms.skip(k).last() == ms.last());
        assert(line_picks(names, seq![ms[k - 1]]) =~= line_picks(names, seq![ms[k - 1]]));
        let single = seq![ms[k - 1]];
        assert(single.drop_last() =~= Seq::<Seq<char>>::empty());
    }
}

/// `version_picks` over one more entry (taken from the back).
proof fn lemma_version_picks_skip(v: Seq<(String, Vec<String>)>, installed: Seq<Seq<char>>, j: int)
    requires
        0 < j <= v.len(),
    ensures
        version_picks(v.skip(j - 1), installed) == version_picks(v.skip(j), installed) + version_picks(
            seq![v[j - 1]],
            installed,
        ),
    decreases v.len() - j,
{
    let s1 = v.skip(j - 1);
    let single = seq![v[j - 1]];
    assert(single.drop_last() =~= Seq::<(String, Vec<String>)>::empty());
    if j == v.len() {
        assert(v.skip(j) =~= Seq::<(String, Vec<String>)>::empty());
        assert(s1 =~= single);
    } else {
        lemma_version_picks_skip(v.drop_last(), installed, j);
        assert(s1.drop_last() =~= v.drop_last().skip(j - 1));
        assert(v.skip(j).drop_last() =~= v.drop_last().skip(j));
        assert(s1.last() == v.last());
        assert(v.skip(j).last() == v.last());
    }
}

/// What a pick leads to.
#[derive(Clone, Debug, PartialEq)]
pub enum PickOutcome {
    /// The divider was picked.
    Invalid,
    /// Install this version.
    Install(String),
    /// The version is installed and no packages were requested.
    AlreadyInstalled(String),
}

/// What picking `target` leads to. Explicit packages are never swallowed:
/// they are the way to add packages to an installed version.
pub fn pick_outcome(target: &str, installed: &[String], packages: &[String]) -> (r: PickOutcome)
    ensures
        target@.len() == 0 ==> r == PickOutcome::Invalid,
        target@.len() > 0 && (!views(installed@).contains(target@) || packages@.len() > 0) ==> (r matches PickOutcome::Install(v) && v@ == target@),
        target@.len() > 0 && views(installed@).contains(target@) && packages@.len() == 0 ==> (r matches PickOutcome::AlreadyInstalled(v) && v@ == target@),
{
    if target.is_empty() {
        PickOutcome::Invalid
    } else if !contains_str(installed, target) || packages.len() > 0 {
        PickOutcome::Install(owned(target))
    } else {
        PickOutcome::AlreadyInstalled(owned(target))
    }
}

} // verus!
