//! The remote index of static PHP builds: target triples, the file listing,
//! its 24-hour cache, download locations and version resolution.
//!
//! The HTTP requests themselves are made by the caller; this module decides
//! what to ask for and what the answers mean.
use crate::constants::BASE_URL;
use crate::paths::path_join;
use crate::precedence::{sort_by_name, sorted_by, Order};
use crate::text::{
    append_str, chars_of, owned, rfind_char, seq_ends_with, seq_starts_with, string_of_range,
    views, last_index, seq_lt,
};
use vstd::prelude::*;

verus! {

broadcast use vstd::seq_lib::group_to_multiset_ensures;

// ---------------------------------------------------------------------------
// Target triples
// ---------------------------------------------------------------------------

/// Why the remote index could not serve a request.
#[derive(Clone, Debug, PartialEq)]
pub enum RemoteError {
    /// The running platform has no builds (operating system, architecture).
    UnsupportedPlatform(String, String),
    /// `latest` was requested but the index lists nothing.
    NoVersions,
    /// No listed version matches the request.
    NoMatch(String),
}

impl RemoteError {
    /// The message shown for this error.
    pub fn message(&self) -> (r: String)
        ensures
            r@ == match self {
                RemoteError::UnsupportedPlatform(os, arch) => "Unsupported OS/Architecture: "@ + os@
                    + "-"@ + arch@,
                RemoteError::NoVersions => "No versions available from remote"@,
                RemoteError::NoMatch(v) => "Could not resolve a remotely available version matching '"@
                    + v@ + "'"@,
            },
    {
        match self {
            RemoteError::UnsupportedPlatform(os, arch) => {
                let mut out = owned("Unsupported OS/Architecture: ");
                append_str(&mut out, os.as_str());
                append_str(&mut out, "-");
                append_str(&mut out, arch.as_str());
                out
            },
            RemoteError::NoVersions => owned("No versions available from remote"),
            RemoteError::NoMatch(v) => {
                let mut out = owned("Could not resolve a remotely available version matching '");
                append_str(&mut out, v.as_str());
                append_str(&mut out, "'");
                out
            },
        }
    }
}

/// The build target of a platform: Linux and macOS on x86_64 and aarch64.
pub open spec fn target_of(os: Seq<char>, arch: Seq<char>) -> Option<Seq<char>> {
    if (os == "linux"@ || os == "macos"@) && (arch == "x86_64"@ || arch == "aarch64"@) {
        Some(os + "-"@ + arch)
    } else {
        None
    }
}

/// The build target for the operating system and architecture pvm runs on
/// (`std::env::consts::OS` and `ARCH`).
pub fn get_target_triple(os: &str, arch: &str) -> (r: Result<String, RemoteError>)
    ensures
        match target_of(os@, arch@) {
            Some(t) => r matches Ok(x) && x@ == t,
            None => r matches Err(RemoteError::UnsupportedPlatform(o, a)) && o@ == os@ && a@ == arch@,
        },
{
    let os_ok = crate::text::str_eq(os, "linux") || crate::text::str_eq(os, "macos");
    let arch_ok = crate::text::str_eq(arch, "x86_64") || crate::text::str_eq(arch, "aarch64");
    if os_ok && arch_ok {
        let mut t = owned(os);
        append_str(&mut t, "-");
        append_str(&mut t, arch);
        Ok(t)
    } else {
        Err(RemoteError::UnsupportedPlatform(owned(os), owned(arch)))
    }
}

// ---------------------------------------------------------------------------
// Download locations
// ---------------------------------------------------------------------------

/// `php-<version>-<package>-<target>.tar.gz`.
pub open spec fn archive_name(version: Seq<char>, package: Seq<char>, target: Seq<char>) -> Seq<char> {
    "php-"@ + version + "-"@ + package + "-"@ + target + ".tar.gz"@
}

/// The address of the archive of `package` for `version` on `target`.
pub fn download_url(version: &str, package: &str, target: &str) -> (r: String)
    ensures
        r@ == BASE_URL@ + archive_name(version@, package@, target@),
{
    let mut url = owned(BASE_URL);
    append_str(&mut url, "php-");
    append_str(&mut url, version);
    append_str(&mut url, "-");
    append_str(&mut url, package);
    append_str(&mut url, "-");
    append_str(&mut url, target);
    append_str(&mut url, ".tar.gz");
    url
}

/// The address of the remote index: the bulk listing, as JSON.
pub fn index_url() -> (r: String)
    ensures
        r@ == BASE_URL@ + "?format=json"@,
{
    let mut url = owned(BASE_URL);
    append_str(&mut url, "?format=json");
    url
}

// ---------------------------------------------------------------------------
// The listing
// ---------------------------------------------------------------------------

/// The version and package an index entry offers for `target`: entries
/// that are files named `php-<version>-<package>-<target>.tar.gz`, where the
/// package is what follows the last `-`.
pub open spec fn listing_entry(name: Seq<char>, is_dir: bool, target: Seq<char>) -> Option<(Seq<char>, Seq<char>)> {
    let suffix = "-"@ + target + ".tar.gz"@;
    if is_dir || !seq_starts_with(name, "php-"@) || !seq_ends_with(name, suffix) {
        None
    } else {
        let after = name.skip(4);
        if !seq_ends_with(after, suffix) {
            None
        } else {
            let rest = after.take(after.len() - suffix.len());
            let i = last_index(rest, '-');
            if i < 0 {
                None
            } else {
                Some((rest.take(i), rest.skip(i + 1)))
            }
        }
    }
}

/// What the index lists under an archive's name is what that archive's
/// address fetches: the file `php-<version>-<package>-<target>.tar.gz` is
/// read back as `version` and `package`, so long as the package name has no
/// `-` (the package is what follows the last one).
pub proof fn law_archive_name_round_trip(version: Seq<char>, package: Seq<char>, target: Seq<char>)
    requires
        crate::text::no_char(package, '-'),
    ensures
        listing_entry(archive_name(version, package, target), false, target) == Some((version, package)),
{
    reveal_strlit("php-");
    reveal_strlit("-");
    reveal_strlit(".tar.gz");
    let name = archive_name(version, package, target);
    let suffix = "-"@ + target + ".tar.gz"@;
    let rest = version + "-"@ + package;
    assert(name =~= "php-"@ + rest + suffix);
    assert(seq_starts_with(name, "php-"@)) by {
        assert(name.subrange(0, 4) =~= "php-"@);
    }
    let after = name.skip(4);
    assert(after =~= rest + suffix);
    assert(seq_ends_with(name, suffix)) by {
        assert(name.subrange(name.len() - suffix.len(), name.len() as int) =~= suffix);
    }
    assert(seq_ends_with(after, suffix)) by {
        assert(after.subrange(after.len() - suffix.len(), after.len() as int) =~= suffix);
    }
    assert(after.take(after.len() - suffix.len()) =~= rest);
    let i = version.len() as int;
    assert(rest[i] == '-');
    assert(rest.skip(i + 1) =~= package);
    crate::text::lemma_last_index_at(rest, '-', i);
    assert(rest.take(i) =~= version);
}

/// The version and package an index entry offers for `target`.
pub fn parse_listing_entry(name: &str, is_dir: bool, target: &str) -> (r: Option<(String, String)>)
    ensures
        match listing_entry(name@, is_dir, target@) {
            Some((v, p)) => r matches Some((x, y)) && x@ == v && y@ == p,
            None => r is None,
        },
{
    let mut suffix = owned("-");
    append_str(&mut suffix, target);
    append_str(&mut suffix, ".tar.gz");
    if is_dir || !crate::text::starts_with(name, "php-") || !crate::text::ends_with(name, suffix.as_str()) {
        return None;
    }
    proof {
        reveal_strlit("php-");
    }
    let v = chars_of(name);
    let after = string_of_range(&v, 4, v.len());
    assert(after@ =~= name@.skip(4));
    if !crate::text::ends_with(after.as_str(), suffix.as_str()) {
        return None;
    }
    let va = chars_of(after.as_str());
    let rest_len = va.len() - suffix.as_str().unicode_len();
    let rest = string_of_range(&va, 0, rest_len);
    assert(rest@ =~= after@.take(after@.len() - suffix@.len()));
    let vr = chars_of(rest.as_str());
    proof {
        crate::text::lemma_last_index(vr@, '-');
    }
    match rfind_char(&vr, '-') {
        Some(i) => {
            let version = string_of_range(&vr, 0, i);
            let package = string_of_range(&vr, i + 1, vr.len());
            assert(version@ =~= rest@.take(i as int));
            assert(package@ =~= rest@.skip(i + 1));
            Some((version, package))
        },
        None => None,
    }
}

/// The views of a listing of versions with their packages.
pub open spec fn listing_view(v: Seq<(String, Vec<String>)>) -> Seq<(Seq<char>, Seq<Seq<char>>)> {
    v.map_values(|e: (String, Vec<String>)| (e.0@, views(e.1@)))
}

/// The packages offered for `version` by the index entries `files`, in listing order.
pub open spec fn offered_packages(files: Seq<(String, bool)>, target: Seq<char>, version: Seq<char>) -> Seq<Seq<char>>
    decreases files.len(),
{
    if files.len() == 0 {
        seq![]
    } else {
        let rest = offered_packages(files.drop_last(), target, version);
        match listing_entry(files.last().0@, files.last().1, target) {
            Some((v, p)) => if v == version {
                rest.push(p)
            } else {
                rest
            },
            None => rest,
        }
    }
}

/// The index entry `f` offers `version`.
pub open spec fn offers(f: (String, bool), target: Seq<char>, version: Seq<char>) -> bool {
    listing_entry(f.0@, f.1, target) matches Some((v, p)) && v == version
}

/// Some entry of `files` offers `version`.
pub open spec fn offered(files: Seq<(String, bool)>, target: Seq<char>, version: Seq<char>) -> bool {
    exists|k: int| 0 <= k < files.len() && offers(#[trigger] files[k], target, version)
}

/// What the index offers for `target`: every offered version exactly once,
/// each with the multiset of its offered packages sorted by name, the
/// versions ordered by semantic version (names that are not semantic
/// versions counting as 0.0.0).
pub open spec fn versions_listing(
    files: Seq<(String, bool)>,
    target: Seq<char>,
    out: Seq<(String, Vec<String>)>,
) -> bool {
    &&& forall|k: int| 0 <= k < out.len() ==> offered(files, target, #[trigger] out[k].0@)
    &&& forall|v: Seq<char>| offered(files, target, v) ==> exists|k: int| 0 <= k < out.len() && #[trigger] out[k].0@ == v
    &&& forall|j: int, k: int| 0 <= j < k < out.len() ==> #[trigger] out[j].0@ != #[trigger] out[k].0@
    &&& forall|k: int|
        0 <= k < out.len() ==> views(#[trigger] out[k].1@).to_multiset() == offered_packages(
            files,
            target,
            out[k].0@,
        ).to_multiset()
    &&& forall|k: int| 0 <= k < out.len() ==> sorted_by(Order::Lexical, #[trigger] out[k].1@)
    &&& sorted_by(Order::Available, out)
}

/// Position of `version` among the versions of `groups`.
fn find_group(groups: &Vec<(String, Vec<String>)>, version: &str) -> (r: Option<usize>)
    ensures
        match r {
            Some(k) => k < groups@.len() && groups@[k as int].0@ == version@,
            None => forall|k: int| 0 <= k < groups@.len() ==> #[trigger] groups@[k].0@ != version@,
        },
{
    let mut k: usize = 0;
    while k < groups.len()
        invariant
            k <= groups@.len(),
            forall|j: int| 0 <= j < k ==> #[trigger] groups@[j].0@ != version@,
        decreases groups.len() - k,
    {
        if crate::text::str_eq(groups[k].0.as_str(), version) {
            return Some(k);
        }
        k = k + 1;
    }
    None
}

/// Groups invariant: each offered version once with its offered packages.
pub open spec fn grouped(files: Seq<(String, bool)>, target: Seq<char>, g: Seq<(String, Vec<String>)>) -> bool {
    &&& forall|k: int| 0 <= k < g.len() ==> offered(files, target, #[trigger] g[k].0@)
    &&& forall|v: Seq<char>| offered(files, target, v) ==> exists|k: int| 0 <= k < g.len() && #[trigger] g[k].0@ == v
    &&& forall|j: int, k: int| 0 <= j < k < g.len() ==> #[trigger] g[j].0@ != #[trigger] g[k].0@
    &&& forall|k: int|
        0 <= k < g.len() ==> views(#[trigger] g[k].1@) == offered_packages(files, target, g[k].0@)
}

/// Groups the entries of the index by version.
fn group_listing(files: &[(String, bool)], target: &str) -> (r: Vec<(String, Vec<String>)>)
    ensures
        grouped(files@, target@, r@),
{
    let mut groups: Vec<(String, Vec<String>)> = Vec::new();
    let mut i: usize = 0;
    while i < files.len()
        invariant
            i <= files.len(),
            grouped(files@.take(i as int), target@, groups@),
        decreases files.len() - i,
    {
        let ghost t = files@.take(i as int);
        let ghost t1 = files@.take(i + 1);
        proof {
            assert(t1.drop_last() =~= t);
            assert(t1.last() == files@[i as int]);
            assert forall|w: int| 0 <= w < t.len() implies t1[w] == t[w] by {}
        }
        match parse_listing_entry(files[i].0.as_str(), files[i].1, target) {
            Some((version, package)) => {
                let ghost old_groups = groups@;
                let ghost vv = version@;
                let ghost pp = package@;
                match find_group(&groups, version.as_str()) {
                    Some(k) => {
                        let mut entry = groups.remove(k);
                        let ghost old_pk = entry.1@;
                        entry.1.push(package);
                        groups.insert(k, entry);
                        proof {
                            assert(views(groups@[k as int].1@) =~= views(old_pk).push(pp));
                        }
                    },
                    None => {
                        let mut pk: Vec<String> = Vec::new();
                        pk.push(package);
                        groups.push((version, pk));
                        proof {
                            assert(offered_packages(t, target@, vv) =~= Seq::<Seq<char>>::empty()) by {
                                if offered_packages(t, target@, vv).len() > 0 {
                                    lemma_offered_packages_nonempty(t, target@, vv);
                                    let w = choose|w: int| 0 <= w < t.len() && offers(t[w], target@, vv);
                                    assert(offered(t, target@, vv));
                                }
                            }
                            assert(views(groups@.last().1@) =~= seq![pp]);
                        }
                    },
                }
                proof {
                    assert(listing_entry(t1.last().0@, t1.last().1, target@) == Some((vv, pp)));
                    assert(offered(t1, target@, vv));
                    assert forall|k: int| 0 <= k < groups@.len() implies offered(t1, target@, #[trigger] groups@[k].0@) by {
                        if groups@[k].0@ != vv {
                            let k0 = if k < old_groups.len() { k } else { k };
                            assert(groups@[k].0@ == old_groups[k0].0@);
                            let w = choose|w: int| 0 <= w < t.len() && offers(t[w], target@, groups@[k].0@);
                            assert(t1[w] == t[w]);
                        }
                    }
                    assert forall|v: Seq<char>| offered(t1, target@, v) implies exists|k: int|
                        0 <= k < groups@.len() && #[trigger] groups@[k].0@ == v by {
                        if v != vv {
                            let w = choose|w: int| 0 <= w < t1.len() && offers(t1[w], target@, v);
                            assert(t[w] == t1[w]);
                            assert(offered(t, target@, v));
                            let k0 = choose|k: int| 0 <= k < old_groups.len() && #[trigger] old_groups[k].0@ == v;
                            assert(groups@[k0].0@ == old_groups[k0].0@);
                        } else {
                            if exists|k: int| 0 <= k < old_groups.len() && #[trigger] old_groups[k].0@ == vv {
                                let k0 = choose|k: int| 0 <= k < old_groups.len() && #[trigger] old_groups[k].0@ == vv;
                                assert(groups@[k0].0@ == old_groups[k0].0@);
                            } else {
                                assert(groups@[old_groups.len() as int].0@ == vv);
                            }
                        }
                    }
                    assert forall|k: int| 0 <= k < groups@.len() implies views(#[trigger] groups@[k].1@)
                        == offered_packages(t1, target@, groups@[k].0@) by {
                        if groups@[k].0@ != vv {
                            assert(groups@[k] == old_groups[k]);
                        }
                    }
                    assert forall|j: int, k: int| 0 <= j < k < groups@.len() implies #[trigger] groups@[j].0@
                        != #[trigger] groups@[k].0@ by {
                        if k < old_groups.len() {
                            assert(groups@[j].0@ == old_groups[j].0@);
                            assert(groups@[k].0@ == old_groups[k].0@);
                        } else {
                            assert(groups@[j].0@ == old_groups[j].0@);
                        }
                    }
                }
            },
            None => {
                proof {
                    assert forall|k: int| 0 <= k < groups@.len() implies offered(t1, target@, #[trigger] groups@[k].0@) by {
                        let w = choose|w: int| 0 <= w < t.len() && offers(t[w], target@, groups@[k].0@);
                        assert(t1[w] == t[w]);
                    }
                    assert forall|v: Seq<char>| offered(t1, target@, v) implies exists|k: int|
                        0 <= k < groups@.len() && #[trigger] groups@[k].0@ == v by {
                        let w = choose|w: int| 0 <= w < t1.len() && offers(t1[w], target@, v);
                        assert(t[w] == t1[w]);
                        assert(offered(t, target@, v));
                    }
                }
            },
        }
        i = i + 1;
    }
    assert(files@.take(files.len() as int) =~= files@);
    groups
}

/// A version with offered packages is offered.
proof fn lemma_offered_packages_nonempty(files: Seq<(String, bool)>, target: Seq<char>, version: Seq<char>)
    requires
        offered_packages(files, target, version).len() > 0,
    ensures
        exists|w: int|
            0 <= w < files.len() && offers(files[w], target, version),
    decreases files.len(),
{
    if offered_packages(files.drop_last(), target, version).len() > 0 {
        lemma_offered_packages_nonempty(files.drop_last(), target, version);
        let w = choose|w: int|
            0 <= w < files.drop_last().len() && offers(files.drop_last()[w], target, version);
        assert(files[w] == files.drop_last()[w]);
    } else {
        assert(offers(files.last(), target, version));
        assert(files[files.len() - 1] == files.last());
    }
}

/// Sorts the packages of every group by name.
fn sort_packages(groups: Vec<(String, Vec<String>)>) -> (r: Vec<(String, Vec<String>)>)
    ensures
        r@.len() == groups@.len(),
        forall|k: int| 0 <= k < r@.len() ==> (#[trigger] r@[k]).0 == groups@[k].0,
        forall|k: int|
            0 <= k < r@.len() ==> views((#[trigger] r@[k]).1@).to_multiset() == views(groups@[k].1@).to_multiset(),
        forall|k: int| 0 <= k < r@.len() ==> sorted_by(Order::Lexical, (#[trigger] r@[k]).1@),
{
    let ghost orig = groups@;
    let mut rest = groups;
    let mut out: Vec<(String, Vec<String>)> = Vec::new();
    while rest.len() > 0
        invariant
            out@.len() + rest@.len() == orig.len(),
            forall|k: int| 0 <= k < rest@.len() ==> #[trigger] rest@[k] == orig[out@.len() + k],
            forall|k: int| 0 <= k < out@.len() ==> (#[trigger] out@[k]).0 == orig[k].0,
            forall|k: int|
                0 <= k < out@.len() ==> views((#[trigger] out@[k]).1@).to_multiset() == views(orig[k].1@).to_multiset(),
            forall|k: int| 0 <= k < out@.len() ==> sorted_by(Order::Lexical, (#[trigger] out@[k]).1@),
        decreases rest.len(),
    {
        let ghost n = out@.len();
        let entry = rest.remove(0);
        assert(entry == orig[n as int]);
        let (version, pkgs) = entry;
        let ghost old_pk = pkgs@;
        let sorted = sort_by_name(pkgs, Order::Lexical);
        proof {
            crate::fs::lemma_views_multiset(old_pk, sorted@);
        }
        out.push((version, sorted));
    }
    out
}

/// What the index offers for `target`: the versions that its entries
/// offer, each with its packages, ordered by semantic version.
pub fn versions_from_listing(files: &[(String, bool)], target: &str) -> (r: Vec<(String, Vec<String>)>)
    ensures
        versions_listing(files@, target@, r@),
        crate::precedence::semver_ordered_versions(crate::precedence::names_in(r@)),
{
    let groups = group_listing(files, target);
    let ghost g = groups@;
    let with_sorted = sort_packages(groups);
    let ghost w = with_sorted@;
    let out = sort_by_name(with_sorted, Order::Available);
    proof {
        broadcast use vstd::multiset::group_multiset_axioms;
        // `w` has distinct versions, hence no duplicates, and so does `out`.
        assert forall|i: int, j: int| 0 <= i < w.len() && 0 <= j < w.len() && i != j implies w[i] != w[j] by {
            if i < j {
                assert(g[i].0@ != g[j].0@);
            } else {
                assert(g[j].0@ != g[i].0@);
            }
        }
        assert(w.no_duplicates());
        w.lemma_multiset_has_no_duplicates();
        out@.lemma_multiset_has_no_duplicates_conv();
        assert forall|k: int| 0 <= k < out@.len() implies exists|i: int| 0 <= i < w.len() && w[i] == #[trigger] out@[k] by {
            assert(out@.to_multiset().contains(out@[k]));
            assert(w.to_multiset().contains(out@[k]));
            assert(w.contains(out@[k]));
        }
        assert forall|k: int| 0 <= k < out@.len() implies offered(files@, target@, #[trigger] out@[k].0@)
            && views(out@[k].1@).to_multiset() == offered_packages(files@, target@, out@[k].0@).to_multiset()
            && sorted_by(Order::Lexical, out@[k].1@) by {
            let i = choose|i: int| 0 <= i < w.len() && w[i] == out@[k];
            assert(w[i].0 == g[i].0);
        }
        assert forall|v: Seq<char>| offered(files@, target@, v) implies exists|k: int|
            0 <= k < out@.len() && #[trigger] out@[k].0@ == v by {
            let i = choose|i: int| 0 <= i < g.len() && #[trigger] g[i].0@ == v;
            assert(w[i].0@ == v);
            assert(w.to_multiset().contains(w[i]));
            assert(out@.to_multiset().contains(w[i]));
            assert(out@.contains(w[i]));
        }
        assert forall|j: int, k: int| 0 <= j < k < out@.len() implies #[trigger] out@[j].0@ != #[trigger] out@[k].0@ by {
            let a = choose|i: int| 0 <= i < w.len() && w[i] == out@[j];
            let b = choose|i: int| 0 <= i < w.len() && w[i] == out@[k];
            assert(out@[j] != out@[k]);
            if a < b {
                assert(g[a].0@ != g[b].0@);
            } else if b < a {
                assert(g[b].0@ != g[a].0@);
            }
        }
        crate::precedence::law_available_order_is_semver_order(out@);
    }
    out
}

// ---------------------------------------------------------------------------
// Resolution against the index
// ---------------------------------------------------------------------------

/// The last listed version that starts with `p`.
pub open spec fn last_listed_with_prefix(v: Seq<(String, Vec<String>)>, p: Seq<char>) -> Option<Seq<char>>
    decreases v.len(),
{
    if v.len() == 0 {
        None
    } else if seq_starts_with(v.last().0@, p) {
        Some(v.last().0@)
    } else {
        last_listed_with_prefix(v.drop_last(), p)
    }
}

/// Some listed version is `name`.
pub open spec fn listed(v: Seq<(String, Vec<String>)>, name: Seq<char>) -> bool {
    exists|k: int| 0 <= k < v.len() && #[trigger] v[k].0@ == name
}

/// The listed version a request names: for `latest` the last listed one, a
/// listed version itself, or the last listed version that starts with
/// `<requested>.` (the newest patch of a `major.minor` request).
pub open spec fn remote_resolution(v: Seq<(String, Vec<String>)>, requested: Seq<char>) -> Option<Seq<char>> {
    if requested == "latest"@ {
        if v.len() == 0 {
            None
        } else {
            Some(v.last().0@)
        }
    } else if listed(v, requested) {
        Some(requested)
    } else {
        last_listed_with_prefix(v, requested + "."@)
    }
}

/// Resolves a request (`latest`, an exact version, or a `major.minor`
/// prefix) against the versions the index offers.
pub fn resolve_version(versions: &[(String, Vec<String>)], requested: &str) -> (r: Result<String, RemoteError>)
    ensures
        match remote_resolution(versions@, requested@) {
            Some(x) => r matches Ok(y) && y@ == x,
            None => if requested@ == "latest"@ {
                r == Err::<String, RemoteError>(RemoteError::NoVersions)
            } else {
                r matches Err(RemoteError::NoMatch(y)) && y@ == requested@
            },
        },
{
    if crate::text::str_eq(requested, "latest") {
        if versions.len() == 0 {
            return Err(RemoteError::NoVersions);
        } else {
            return Ok(versions[versions.len() - 1].0.clone());
        }
    }
    let mut i: usize = 0;
    while i < versions.len()
        invariant
            i <= versions.len(),
            requested@ != "latest"@,
            forall|k: int| 0 <= k < i ==> versions@[k].0@ != requested@,
        decreases versions.len() - i,
    {
        if crate::text::str_eq(versions[i].0.as_str(), requested) {
            assert(versions@[i as int].0@ == requested@);
            return Ok(owned(requested));
        }
        i = i + 1;
    }
    let mut prefix = owned(requested);
    append_str(&mut prefix, ".");
    let mut found: Option<String> = None;
    let mut j: usize = 0;
    while j < versions.len()
        invariant
            j <= versions.len(),
            prefix@ == requested@ + "."@,
            opt_string_eq(found, last_listed_with_prefix(versions@.take(j as int), prefix@)),
        decreases versions.len() - j,
    {
        proof {
            assert(versions@.take(j + 1).drop_last() =~= versions@.take(j as int));
            assert(versions@.take(j + 1).last() == versions@[j as int]);
        }
        if crate::text::starts_with(versions[j].0.as_str(), prefix.as_str()) {
            found = Some(versions[j].0.clone());
        }
        j = j + 1;
    }
    assert(versions@.take(versions.len() as int) =~= versions@);
    match found {
        Some(v) => Ok(v),
        None => Err(RemoteError::NoMatch(owned(requested))),
    }
}

/// `o` holds a string whose view is `v`'s, or both are empty.
pub open spec fn opt_string_eq(o: Option<String>, v: Option<Seq<char>>) -> bool {
    crate::text::opt_string(o) == v
}

// ---------------------------------------------------------------------------
// The 24-hour cache
// ---------------------------------------------------------------------------

/// What `serde_json::from_str::<Vec<(String, Vec<String>)>>` makes of a text
/// (`None` when it fails).
pub uninterp spec fn cache_json_parse(text: Seq<char>) -> Option<Seq<(Seq<char>, Seq<Seq<char>>)>>;

/// What `serde_json::to_string` makes of a listing (`None` when it fails).
pub uninterp spec fn cache_json_text(v: Seq<(Seq<char>, Seq<Seq<char>>)>) -> Option<Seq<char>>;

/// Parses a cached listing with `serde_json::from_str`.
///
/// Trusted: the result is the crate's parse of the text, named
/// `cache_json_parse`; which texts it accepts is not stated.
#[verifier::external_body]
fn parse_cache_json(text: &str) -> (r: Option<Vec<(String, Vec<String>)>>)
    ensures
        match r {
            Some(v) => cache_json_parse(text@) == Some(listing_view(v@)),
            None => cache_json_parse(text@) is None,
        },
{
    serde_json::from_str::<Vec<(String, Vec<String>)>>(text).ok()
}

/// Serialises a listing with `serde_json::to_string`.
///
/// Trusted: the result is the crate's text for the listing, named
/// `cache_json_text`; its form is not stated. Two facts are claimed: it
/// succeeds (strings, sequences and tuples serialise into a `Vec<u8>`,
/// which cannot fail; only custom `Serialize` impls and maps with
/// non-string keys can), and `serde_json::from_str` reads the text back as
/// the same listing (strings are escaped and unescaped exactly).
#[verifier::external_body]
fn listing_json(v: &Vec<(String, Vec<String>)>) -> (r: Option<String>)
    ensures
        crate::text::opt_string(r) == cache_json_text(listing_view(v@)),
        r is Some,
        cache_json_parse(r.unwrap()@) == Some(listing_view(v@)),
{
    serde_json::to_string(v).ok()
}

/// How long a cached listing is used: 24 hours, in seconds.
pub const CACHE_MAX_AGE_SECS: u64 = 86400;

/// `remote_cache-<target>.json`.
pub open spec fn cache_file_name(target: Seq<char>) -> Seq<char> {
    "remote_cache-"@ + target + ".json"@
}

/// Where the listing for `target` is cached: `<pvm_dir>/remote_cache-<target>.json`.
pub fn get_cache_path(pvm_dir: &str, target: &str) -> (r: String)
    ensures
        r@ == path_join(pvm_dir@, cache_file_name(target@)),
{
    let mut name = owned("remote_cache-");
    append_str(&mut name, target);
    append_str(&mut name, ".json");
    crate::paths::join(pvm_dir, name.as_str())
}

/// The listing a cache file holds, when it was written less than 24 hours
/// ago (`age_secs` whole seconds) and parses.
pub fn cached_versions(contents: &str, age_secs: u64) -> (r: Option<Vec<(String, Vec<String>)>>)
    ensures
        age_secs >= CACHE_MAX_AGE_SECS ==> r is None,
        age_secs < CACHE_MAX_AGE_SECS ==> match cache_json_parse(contents@) {
            Some(x) => r matches Some(v) && listing_view(v@) == x,
            None => r is None,
        },
{
    if age_secs < CACHE_MAX_AGE_SECS {
        parse_cache_json(contents)
    } else {
        None
    }
}

/// The text written to the cache for a listing. What is written reads
/// back: within the 24 hours, `cached_versions` of this text is the same
/// listing.
pub fn encode_cache(versions: &Vec<(String, Vec<String>)>) -> (r: Option<String>)
    ensures
        crate::text::opt_string(r) == cache_json_text(listing_view(versions@)),
        r matches Some(t) && cache_json_parse(t@) == Some(listing_view(versions@)),
{
    listing_json(versions)
}

} // verus!
