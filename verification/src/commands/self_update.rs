//! `pvm self-update`: which pvm version runs, which one is released, and
//! where the release is fetched from.
use crate::fs::{is_white, is_whitespace, trim_start};
use crate::precedence::{less_than, parse_core, semver_less, semver_valid};
use crate::text::{append_str, before_first, chars_of, owned, string_of_range};
use std::io::Read;
use ArchiveStop::{ContentFailed, End, EntriesFailed, EntryFailed, PathFailed};
use vstd::prelude::*;

verus! {

/// The GitHub repository pvm is released from.
pub const GITHUB_REPO: &'static str = "WebProject-xyz/php-version-manager";

/// Check for and apply pvm updates.
#[derive(Clone, Copy, Debug, PartialEq, Eq, Structural)]
pub struct SelfUpdate {
    /// Apply the update if a newer version is available (asks for confirmation, default yes).
    pub apply: bool,
}

/// Why a version cannot be compared.
#[derive(Clone, Debug, PartialEq)]
pub enum SelfUpdateError {
    /// Neither the build's version nor the package version parses: the
    /// core tried, and the raw build version.
    BadCurrent(String, String),
    /// The release tag does not parse.
    BadTag(String),
}

impl SelfUpdateError {
    /// The message shown for this error.
    pub fn message(&self) -> (r: String)
        ensures
            r@ == match self {
                SelfUpdateError::BadCurrent(c, raw) => "Failed to parse current pvm version '"@ + c@ + "' from '"@
                    + raw@ + "'"@,
                SelfUpdateError::BadTag(t) => "Failed to parse remote release tag '"@ + t@ + "'"@,
            },
    {
        match self {
            SelfUpdateError::BadCurrent(c, raw) => {
                let mut out = owned("Failed to parse current pvm version '");
                append_str(&mut out, c.as_str());
                append_str(&mut out, "' from '");
                append_str(&mut out, raw.as_str());
                append_str(&mut out, "'");
                out
            },
            SelfUpdateError::BadTag(t) => {
                let mut out = owned("Failed to parse remote release tag '");
                append_str(&mut out, t.as_str());
                append_str(&mut out, "'");
                out
            },
        }
    }
}

/// `s` without its leading `v`s (as `trim_start_matches('v')`).
pub open spec fn strip_v(s: Seq<char>) -> Seq<char>
    decreases s.len(),
{
    if s.len() > 0 && s[0] == 'v' {
        strip_v(s.drop_first())
    } else {
        s
    }
}

/// Position of the first whitespace in `s`, or its length.
pub open spec fn first_white(s: Seq<char>) -> int
    decreases s.len(),
{
    if s.len() == 0 {
        0
    } else if is_white(s[0]) {
        0
    } else {
        1 + first_white(s.drop_first())
    }
}

/// The first whitespace-separated token of `s` (as
/// `split_whitespace().next()`), or `s` itself when it has none.
pub open spec fn first_token(s: Seq<char>) -> Seq<char> {
    let t = trim_start(s);
    if t.len() == 0 {
        s
    } else {
        t.take(first_white(t))
    }
}

/// The version core of a build version such as `v2.0.1-2-gabc (dirty)`:
/// its first token without leading `v`s, cut before the first `-` (the
/// extras of `git describe` are not semantic versions).
pub open spec fn version_core_text(raw: Seq<char>) -> Seq<char> {
    before_first(strip_v(first_token(raw)), '-')
}

/// `first_white` of a text whose first whitespace is at `j`.
proof fn lemma_first_white_at(s: Seq<char>, j: int)
    requires
        0 <= j <= s.len(),
        forall|k: int| 0 <= k < j ==> !is_white(s[k]),
        j == s.len() || is_white(s[j]),
    ensures
        first_white(s) == j,
    decreases j,
{
    if j > 0 {
        assert forall|k: int| 0 <= k < j - 1 implies !is_white(s.drop_first()[k]) by {
            assert(s.drop_first()[k] == s[k + 1]);
        }
        if j < s.len() {
            assert(s.drop_first()[j - 1] == s[j]);
        }
        lemma_first_white_at(s.drop_first(), j - 1);
    }
}

/// `strip_v` of a text whose first character other than `v` is at `a`.
proof fn lemma_strip_v_at(s: Seq<char>, a: int)
    requires
        0 <= a <= s.len(),
        forall|k: int| 0 <= k < a ==> s[k] == 'v',
        a == s.len() || s[a] != 'v',
    ensures
        strip_v(s) == s.skip(a),
    decreases a,
{
    if a > 0 {
        assert forall|k: int| 0 <= k < a - 1 implies s.drop_first()[k] == 'v' by {
            assert(s.drop_first()[k] == s[k + 1]);
        }
        if a < s.len() {
            assert(s.drop_first()[a - 1] == s[a]);
        }
        lemma_strip_v_at(s.drop_first(), a - 1);
        assert(s.drop_first().skip(a - 1) =~= s.skip(a));
    } else {
        assert(s.skip(0) =~= s);
    }
}

/// The version core of the build version `raw`.
pub fn version_core(raw: &str) -> (r: String)
    ensures
        r@ == version_core_text(raw@),
{
    let v = chars_of(raw);
    let n = v.len();
    let mut i: usize = 0;
    while i < n && is_whitespace(v[i])
        invariant
            v@ == raw@,
            n == v@.len(),
            i <= n,
            forall|k: int| 0 <= k < i ==> is_white(v@[k]),
        decreases n - i,
    {
        i = i + 1;
    }
    proof {
        crate::fs::lemma_trim_start_skip(v@, i as int);
    }
    let ghost t = v@.skip(i as int);
    let mut a: usize = 0;
    let mut b: usize = n;
    if i < n {
        let mut j: usize = i;
        while j < n && !is_whitespace(v[j])
            invariant
                v@ == raw@,
                n == v@.len(),
                i <= j <= n,
                forall|k: int| i <= k < j ==> !is_white(v@[k]),
            decreases n - j,
        {
            j = j + 1;
        }
        proof {
            assert forall|k: int| 0 <= k < j - i implies !is_white(t[k]) by {
                assert(t[k] == v@[k + i]);
            }
            if j < n {
                assert(t[j - i] == v@[j as int]);
            }
            lemma_first_white_at(t, j - i);
            assert(t.take(j - i) =~= v@.subrange(i as int, j as int));
        }
        a = i;
        b = j;
    } else {
        assert(v@.subrange(0, n as int) =~= v@);
    }
    let ghost token = v@.subrange(a as int, b as int);
    assert(token == first_token(raw@));
    let mut c: usize = a;
    while c < b && v[c] == 'v'
        invariant
            v@ == raw@,
            n == v@.len(),
            a <= c <= b <= n,
            token == v@.subrange(a as int, b as int),
            forall|k: int| a <= k < c ==> v@[k] == 'v',
        decreases b - c,
    {
        c = c + 1;
    }
    proof {
        lemma_strip_v_at(token, c - a);
        assert(token.skip(c - a) =~= v@.subrange(c as int, b as int));
    }
    let ghost stripped = v@.subrange(c as int, b as int);
    let mut d: usize = c;
    while d < b && v[d] != '-'
        invariant
            v@ == raw@,
            n == v@.len(),
            c <= d <= b <= n,
            stripped == v@.subrange(c as int, b as int),
            forall|k: int| c <= k < d ==> v@[k] != '-',
        decreases b - d,
    {
        d = d + 1;
    }
    proof {
        crate::text::lemma_first_index(stripped, '-');
        if d < b {
            assert(stripped[d - c] == '-');
            let pre = stripped.take(d - c);
            assert forall|k: int| 0 <= k < pre.len() implies #[trigger] pre[k] != '-' by {
                assert(pre[k] == v@[c + k]);
            }
            crate::text::lemma_first_index_at(stripped, '-', d - c);
            assert(stripped.take(d - c) =~= v@.subrange(c as int, d as int));
        } else {
            assert forall|k: int| 0 <= k < stripped.len() implies stripped[k] != '-' by {
                assert(stripped[k] == v@[c + k]);
            }
        }
    }
    string_of_range(&v, c, d)
}

/// The version that runs: the core of the build version `raw` when it is a
/// semantic version, else the package version `package`.
pub fn current_version(raw: &str, package: &str) -> (r: Result<String, SelfUpdateError>)
    ensures
        semver_valid(version_core_text(raw@)) ==> (r matches Ok(v) && v@ == version_core_text(raw@)),
        !semver_valid(version_core_text(raw@)) && semver_valid(package@) ==> (r matches Ok(v) && v@ == package@),
        !semver_valid(version_core_text(raw@)) && !semver_valid(package@) ==> (r matches Err(
            SelfUpdateError::BadCurrent(c, w),
        ) && c@ == version_core_text(raw@) && w@ == raw@),
{
    let core = version_core(raw);
    if parse_core(core.as_str()).is_some() {
        Ok(core)
    } else if parse_core(package).is_some() {
        Ok(owned(package))
    } else {
        Err(SelfUpdateError::BadCurrent(core, owned(raw)))
    }
}

/// The released version a tag names: the tag without its leading `v`s.
pub fn remote_version(tag: &str) -> (r: Result<String, SelfUpdateError>)
    ensures
        semver_valid(strip_v(tag@)) ==> (r matches Ok(v) && v@ == strip_v(tag@)),
        !semver_valid(strip_v(tag@)) ==> (r matches Err(SelfUpdateError::BadTag(t)) && t@ == tag@),
{
    let v = chars_of(tag);
    let mut a: usize = 0;
    while a < v.len() && v[a] == 'v'
        invariant
            v@ == tag@,
            a <= v@.len(),
            forall|k: int| 0 <= k < a ==> v@[k] == 'v',
        decreases v.len() - a,
    {
        a = a + 1;
    }
    proof {
        lemma_strip_v_at(v@, a as int);
        assert(v@.skip(a as int) =~= v@.subrange(a as int, v@.len() as int));
    }
    let t = string_of_range(&v, a, v.len());
    if parse_core(t.as_str()).is_some() {
        Ok(t)
    } else {
        Err(SelfUpdateError::BadTag(owned(tag)))
    }
}

/// A release is an update when its version has higher precedence than the
/// running one (`remote <= current` means up to date).
pub fn is_update(current: &str, remote: &str) -> (r: bool)
    requires
        semver_valid(current@),
        semver_valid(remote@),
    ensures
        r == semver_less(current@, remote@),
{
    less_than(current, remote)
}

/// Where the running pvm stands against a release.
#[derive(Clone, Debug, PartialEq)]
pub struct UpdateStatus {
    /// The running version.
    pub current: String,
    /// The released version.
    pub remote: String,
    /// The release is newer.
    pub newer: bool,
}

/// Compare the running pvm (build version `raw`, package version
/// `package`) with the release tagged `tag`.
pub fn update_status(raw: &str, package: &str, tag: &str) -> (r: Result<UpdateStatus, SelfUpdateError>)
    ensures
        ({
            let core = version_core_text(raw@);
            let cur = if semver_valid(core) {
                Some(core)
            } else if semver_valid(package@) {
                Some(package@)
            } else {
                None::<Seq<char>>
            };
            match cur {
                None => (r matches Err(SelfUpdateError::BadCurrent(c, w)) && c@ == core && w@ == raw@),
                Some(c) => if semver_valid(strip_v(tag@)) {
                    (r matches Ok(st) && st.current@ == c && st.remote@ == strip_v(tag@) && st.newer
                        == semver_less(c, strip_v(tag@)))
                } else {
                    (r matches Err(SelfUpdateError::BadTag(t)) && t@ == tag@)
                },
            }
        }),
{
    let current = current_version(raw, package)?;
    let remote = remote_version(tag)?;
    let newer = is_update(current.as_str(), remote.as_str());
    Ok(UpdateStatus { current, remote, newer })
}

// ---------------------------------------------------------------------------
// The release archive
// ---------------------------------------------------------------------------

/// Where reading a release archive stopped.
#[derive(Clone, Copy, Debug, PartialEq, Eq, Structural)]
pub enum ArchiveStop {
    /// After the last entry.
    End,
    /// The archive's entries could not be listed at all.
    EntriesFailed,
    /// The next entry could not be read.
    EntryFailed,
    /// An entry's path could not be read.
    PathFailed,
    /// The contents of the last entry listed could not be read (that entry is
    /// listed with no contents).
    ContentFailed,
}

/// What reading a gzip-compressed tar archive with the `flate2` and `tar`
/// crates gives: the entries read, in order (path and contents), and where
/// reading stopped.
pub uninterp spec fn archive_read(bytes: Seq<u8>) -> (Seq<(Seq<char>, Seq<u8>)>, ArchiveStop);

/// The views of archive entries.
pub open spec fn entry_views(v: Seq<(String, Vec<u8>)>) -> Seq<(Seq<char>, Seq<u8>)> {
    v.map_values(|e: (String, Vec<u8>)| (e.0@, e.1@))
}

/// Reads the entries of a gzip-compressed tar archive with
/// `tar::Archive::new(flate2::read::GzDecoder::new(..)).entries()`, each
/// path (`Entry::path`, lossily as text) with the entry's contents
/// (`Read::read_to_end`), until the end or the first error, and says which
/// step failed.
///
/// Trusted: the result is named `archive_read`; nothing is claimed about
/// what an archive holds.
#[verifier::external_body]
fn read_archive(bytes: &[u8]) -> (r: (Vec<(String, Vec<u8>)>, ArchiveStop))
    ensures
        (entry_views(r.0@), r.1) == archive_read(bytes@),
{
    let mut out = Vec::new();
    let mut archive = tar::Archive::new(flate2::read::GzDecoder::new(bytes));
    let entries = match archive.entries() { Ok(e) => e, Err(_) => return (out, EntriesFailed) };
    for entry in entries {
        let mut entry = match entry { Ok(e) => e, Err(_) => return (out, EntryFailed) };
        let path = match entry.path() { Ok(p) => p.to_string_lossy().into_owned(), Err(_) => return (out, PathFailed) };
        let mut data = Vec::new();
        if entry.read_to_end(&mut data).is_err() {
            out.push((path, Vec::new()));
            return (out, ContentFailed);
        }
        out.push((path, data));
    }
    (out, End)
}

/// The last component of a path when it is a name (as
/// `std::path::Path::file_name`: none for the root, `.` or `..`).
pub open spec fn file_name_of(p: Seq<char>) -> Option<Seq<char>> {
    let c = crate::paths::components(p);
    if c.len() == 0 || c.last() == "/"@ || c.last() == "."@ || c.last() == ".."@ {
        None
    } else {
        Some(c.last())
    }
}

/// The name of an entry path.
fn file_name(p: &str) -> (r: Option<String>)
    ensures
        crate::text::opt_string(r) == file_name_of(p@),
{
    let c = crate::paths::path_components(p);
    if c.len() == 0 {
        return None;
    }
    let last = &c[c.len() - 1];
    assert(last@ == crate::paths::components(p@).last());
    if crate::text::str_eq(last.as_str(), "/") || crate::text::str_eq(last.as_str(), ".")
        || crate::text::str_eq(last.as_str(), "..") {
        None
    } else {
        Some(last.clone())
    }
}

/// The position of the first entry named `pvm`.
pub open spec fn binary_index(entries: Seq<(Seq<char>, Seq<u8>)>) -> int
    decreases entries.len(),
{
    if entries.len() == 0 {
        -1
    } else if binary_index(entries.drop_last()) >= 0 {
        binary_index(entries.drop_last())
    } else if file_name_of(entries.last().0) == Some("pvm"@) {
        entries.len() - 1
    } else {
        -1
    }
}

/// Why a release archive gives no binary.
#[derive(Clone, Copy, Debug, PartialEq, Eq, Structural)]
pub enum ArchiveError {
    /// The archive's entries could not be listed.
    EntriesUnreadable,
    /// An entry before the binary could not be read.
    EntryUnreadable,
    /// An entry's path could not be read.
    InvalidPath,
    /// The contents of the `pvm` entry could not be read.
    ExtractFailed,
    /// The archive holds no `pvm` entry.
    NoBinary,
}

impl ArchiveError {
    /// The message shown for this error.
    pub fn message(&self) -> (r: String)
        ensures
            r@ == match self {
                ArchiveError::EntriesUnreadable => "Failed to read archive entries"@,
                ArchiveError::EntryUnreadable => "Failed to read archive entry"@,
                ArchiveError::InvalidPath => "Invalid entry path"@,
                ArchiveError::ExtractFailed => "Failed to extract pvm binary from archive"@,
                ArchiveError::NoBinary => "Release archive did not contain a `pvm` binary"@,
            },
    {
        match self {
            ArchiveError::EntriesUnreadable => owned("Failed to read archive entries"),
            ArchiveError::EntryUnreadable => owned("Failed to read archive entry"),
            ArchiveError::InvalidPath => owned("Invalid entry path"),
            ArchiveError::ExtractFailed => owned("Failed to extract pvm binary from archive"),
            ArchiveError::NoBinary => owned("Release archive did not contain a `pvm` binary"),
        }
    }
}

/// The error, if any, of taking the binary from the entries `es` read up to
/// `stop`. The first entry named `pvm` is the binary, unless its contents
/// failed to read. Without such an entry, the error is the step that failed;
/// contents that failed to read on another entry count as a failure to read
/// the next entry, since that is where reading past them fails.
pub open spec fn archive_error_of(es: Seq<(Seq<char>, Seq<u8>)>, stop: ArchiveStop) -> Option<ArchiveError> {
    let k = binary_index(es);
    if k >= 0 {
        if stop == ArchiveStop::ContentFailed && k == es.len() - 1 {
            Some(ArchiveError::ExtractFailed)
        } else {
            None
        }
    } else {
        match stop {
            ArchiveStop::End => Some(ArchiveError::NoBinary),
            ArchiveStop::EntriesFailed => Some(ArchiveError::EntriesUnreadable),
            ArchiveStop::EntryFailed => Some(ArchiveError::EntryUnreadable),
            ArchiveStop::PathFailed => Some(ArchiveError::InvalidPath),
            ArchiveStop::ContentFailed => Some(ArchiveError::EntryUnreadable),
        }
    }
}

/// The `pvm` binary among archive entries read up to `stop`: the contents of
/// the first entry whose name is `pvm`, or the error `archive_error_of` gives.
pub fn binary_from_entries(entries: &[(String, Vec<u8>)], stop: ArchiveStop) -> (r: Result<Vec<u8>, ArchiveError>)
    ensures
        ({
            let es = entry_views(entries@);
            match archive_error_of(es, stop) {
                None => (r matches Ok(b) && 0 <= binary_index(es) < es.len() && b@ == es[binary_index(es)].1),
                Some(e) => r == Err::<Vec<u8>, ArchiveError>(e),
            }
        }),
{
    let ghost ev = entry_views(entries@);
    let mut i: usize = 0;
    while i < entries.len()
        invariant
            i <= entries@.len(),
            ev == entry_views(entries@),
            binary_index(ev.take(i as int)) == -1,
        decreases entries.len() - i,
    {
        proof {
            assert(ev.take(i + 1).drop_last() =~= ev.take(i as int));
            assert(ev.take(i + 1).last() == ev[i as int]);
            assert(ev[i as int].0 == entries@[i as int].0@);
        }
        let named = file_name(entries[i].0.as_str());
        let is_pvm = match &named {
            Some(n) => crate::text::str_eq(n.as_str(), "pvm"),
            None => false,
        };
        if is_pvm {
            proof {
                lemma_binary_index_prefix(ev, i as int + 1);
            }
            if i + 1 == entries.len() {
                match stop {
                    ArchiveStop::ContentFailed => {
                        return Err(ArchiveError::ExtractFailed);
                    },
                    _ => {},
                }
            }
            assert(ev[i as int].1 == entries@[i as int].1@);
            return Ok(entries[i].1.clone());
        }
        i = i + 1;
    }
    assert(ev.take(entries@.len() as int) =~= ev);
    match stop {
        ArchiveStop::End => Err(ArchiveError::NoBinary),
        ArchiveStop::EntriesFailed => Err(ArchiveError::EntriesUnreadable),
        ArchiveStop::EntryFailed => Err(ArchiveError::EntryUnreadable),
        ArchiveStop::PathFailed => Err(ArchiveError::InvalidPath),
        ArchiveStop::ContentFailed => Err(ArchiveError::EntryUnreadable),
    }
}

/// The first `pvm` entry decides, whatever follows it.
proof fn lemma_binary_index_prefix(e: Seq<(Seq<char>, Seq<u8>)>, n: int)
    requires
        0 < n <= e.len(),
        binary_index(e.take(n - 1)) == -1,
        file_name_of(e[n - 1].0) == Some("pvm"@),
    ensures
        binary_index(e) == n - 1,
    decreases e.len(),
{
    assert(e.take(n).drop_last() =~= e.take(n - 1));
    if n < e.len() {
        assert(e.drop_last().take(n - 1) =~= e.take(n - 1));
        assert(e.drop_last()[n - 1] == e[n - 1]);
        lemma_binary_index_prefix(e.drop_last(), n);
    } else {
        assert(e.take(n) =~= e);
    }
}

/// The `pvm` binary in a release archive (gzip-compressed tar bytes).
pub fn release_binary(archive: &[u8]) -> (r: Result<Vec<u8>, ArchiveError>)
    ensures
        ({
            let (es, stop) = archive_read(archive@);
            match archive_error_of(es, stop) {
                None => (r matches Ok(b) && 0 <= binary_index(es) < es.len() && b@ == es[binary_index(es)].1),
                Some(e) => r == Err::<Vec<u8>, ArchiveError>(e),
            }
        }),
{
    let (entries, stop) = read_archive(archive);
    binary_from_entries(entries.as_slice(), stop)
}

/// The GitHub API address of the latest release.
pub fn latest_release_url() -> (r: String)
    ensures
        r@ == "https://api.github.com/repos/"@ + GITHUB_REPO@ + "/releases/latest"@,
{
    let mut out = owned("https://api.github.com/repos/");
    append_str(&mut out, GITHUB_REPO);
    append_str(&mut out, "/releases/latest");
    out
}

/// The address of the release archive of `tag` for `target`.
pub fn release_asset_url(tag: &str, target: &str) -> (r: String)
    ensures
        r@ == "https://github.com/"@ + GITHUB_REPO@ + "/releases/download/"@ + tag@ + "/pvm-"@ + target@
            + ".tar.gz"@,
{
    let mut out = owned("https://github.com/");
    append_str(&mut out, GITHUB_REPO);
    append_str(&mut out, "/releases/download/");
    append_str(&mut out, tag);
    append_str(&mut out, "/pvm-");
    append_str(&mut out, target);
    append_str(&mut out, ".tar.gz");
    out
}

} // verus!
