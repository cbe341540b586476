//! `pvm ls-remote`: which remote versions to list and how each is marked.
use crate::network::listing_view;
use crate::text::{append_str, clone_strings, contains_str, join, join_with, opt_str, owned, seq_starts_with, starts_with, str_eq, views};
use vstd::prelude::*;

verus! {

/// List all remote available PHP versions.
#[derive(Clone, Debug, PartialEq)]
pub struct LsRemote {
    /// Optional version prefix to filter by (e.g. '8.2', '8', '8.4.1').
    pub version_prefix: Option<String>,
}

/// `v` is `prefix` or lies below it (`prefix.` starts it).
pub open spec fn matches_prefix(v: Seq<char>, prefix: Seq<char>) -> bool {
    v == prefix || seq_starts_with(v, prefix + "."@)
}

/// The listing entries `pvm ls-remote [prefix]` shows, in listing order.
pub open spec fn remote_filter(v: Seq<(Seq<char>, Seq<Seq<char>>)>, prefix: Option<Seq<char>>) -> Seq<
    (Seq<char>, Seq<Seq<char>>),
> {
    match prefix {
        Some(p) => v.filter(|e: (Seq<char>, Seq<Seq<char>>)| matches_prefix(e.0, p)),
        None => v,
    }
}

/// The entries of `versions` that `prefix` selects (all without one).
pub fn filter_by_prefix(versions: &[(String, Vec<String>)], prefix: Option<&str>) -> (r: Vec<(String, Vec<String>)>)
    ensures
        listing_view(r@) == remote_filter(listing_view(versions@), opt_str(prefix)),
{
    let ghost lv = listing_view(versions@);
    let mut r: Vec<(String, Vec<String>)> = Vec::new();
    match prefix {
        None => {
            let mut i: usize = 0;
            while i < versions.len()
                invariant
                    i <= versions@.len(),
                    lv == listing_view(versions@),
                    listing_view(r@) == lv.take(i as int),
                decreases versions.len() - i,
            {
                let ghost before = r@;
                r.push((versions[i].0.clone(), clone_strings(versions[i].1.as_slice())));
                assert(listing_view(r@) =~= listing_view(before).push(lv[i as int]));
                assert(lv.take(i + 1) =~= lv.take(i as int).push(lv[i as int]));
                i = i + 1;
            }
            assert(lv.take(versions@.len() as int) =~= lv);
        },
        Some(p) => {
            let mut dotted = owned(p);
            append_str(&mut dotted, ".");
            let ghost f = |e: (Seq<char>, Seq<Seq<char>>)| matches_prefix(e.0, p@);
            let mut i: usize = 0;
            while i < versions.len()
                invariant
                    i <= versions@.len(),
                    lv == listing_view(versions@),
                    dotted@ == p@ + "."@,
                    f == (|e: (Seq<char>, Seq<Seq<char>>)| matches_prefix(e.0, p@)),
                    listing_view(r@) == lv.take(i as int).filter(f),
                decreases versions.len() - i,
            {
                proof {
                    assert(lv.take(i + 1) =~= lv.take(i as int).push(lv[i as int]));
                    lv.take(i as int).lemma_filter_push(lv[i as int], f);
                }
                let v = &versions[i].0;
                if str_eq(v.as_str(), p) || starts_with(v.as_str(), dotted.as_str()) {
                    let ghost before = r@;
                    r.push((v.clone(), clone_strings(versions[i].1.as_slice())));
                    assert(listing_view(r@) =~= listing_view(before).push(lv[i as int]));
                }
                i = i + 1;
            }
            assert(lv.take(versions@.len() as int) =~= lv);
        },
    }
    r
}

/// One row of the remote list: whether the version is installed, the
/// version, and its packages joined by `, `.
#[derive(Clone, Debug, PartialEq)]
pub struct RemoteRow {
    pub installed: bool,
    pub version: String,
    pub packages: String,
}

/// The rows for `versions` (oldest first: the newest print last, right
/// above the prompt), each marked when it is among `installed`.
pub fn remote_rows(versions: &[(String, Vec<String>)], installed: &[String]) -> (r: Vec<RemoteRow>)
    ensures
        r@.len() == versions@.len(),
        forall|i: int|
            0 <= i < r@.len() ==> {
                &&& (#[trigger] r@[i]).installed == views(installed@).contains(versions@[i].0@)
                &&& r@[i].version@ == versions@[i].0@
                &&& r@[i].packages@ == join(views(versions@[i].1@), ", "@)
            },
{
    let mut r: Vec<RemoteRow> = Vec::new();
    let mut i: usize = 0;
    while i < versions.len()
        invariant
            i <= versions@.len(),
            r@.len() == i,
            forall|k: int|
                0 <= k < i ==> {
                    &&& (#[trigger] r@[k]).installed == views(installed@).contains(versions@[k].0@)
                    &&& r@[k].version@ == versions@[k].0@
                    &&& r@[k].packages@ == join(views(versions@[k].1@), ", "@)
                },
        decreases versions.len() - i,
    {
        let e = &versions[i];
        r.push(
            RemoteRow {
                installed: contains_str(installed, e.0.as_str()),
                version: e.0.clone(),
                packages: join_with(e.1.as_slice(), ", "),
            },
        );
        i = i + 1;
    }
    r
}

/// What `pvm ls-remote [prefix]` shows.
#[derive(Clone, Debug, PartialEq)]
pub enum RemoteListing {
    /// The prefix selects no remote version (or the index lists none).
    NothingFound,
    /// One row per selected version, oldest first.
    Rows(Vec<RemoteRow>),
}

/// The remote list for `prefix`: the selected versions as rows, each marked
/// when it is among `installed`, or `NothingFound` when none is selected.
pub fn remote_listing(versions: &[(String, Vec<String>)], prefix: Option<&str>, installed: &[String]) -> (r:
    RemoteListing)
    ensures
        ({
            let shown = remote_filter(listing_view(versions@), opt_str(prefix));
            match r {
                RemoteListing::NothingFound => shown.len() == 0,
                RemoteListing::Rows(rows) => {
                    &&& shown.len() > 0
                    &&& rows@.len() == shown.len()
                    &&& forall|i: int|
                        0 <= i < rows@.len() ==> {
                            &&& (#[trigger] rows@[i]).installed == views(installed@).contains(shown[i].0)
                            &&& rows@[i].version@ == shown[i].0
                            &&& rows@[i].packages@ == join(shown[i].1, ", "@)
                        }
                },
            }
        }),
{
    let shown = filter_by_prefix(versions, prefix);
    if shown.len() == 0 {
        RemoteListing::NothingFound
    } else {
        let rows = remote_rows(shown.as_slice(), installed);
        proof {
            assert forall|i: int| 0 <= i < rows@.len() implies listing_view(shown@)[i].0 == shown@[i].0@
                && listing_view(shown@)[i].1 == views(shown@[i].1@) by {}
        }
        RemoteListing::Rows(rows)
    }
}

} // verus!
