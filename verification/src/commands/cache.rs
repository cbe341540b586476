//! `pvm cache clear`: which files of the PVM directory are cached indexes.
use crate::text::{append_str, lemma_filter_none, ends_with, owned, seq_ends_with, seq_starts_with, starts_with, u64_to_decimal, decimal, views};
use vstd::prelude::*;

verus! {

/// What `pvm cache` does.
#[derive(Clone, Copy, Debug, PartialEq, Eq, Structural)]
pub enum CacheAction {
    /// Delete the cached remote version index.
    Clear,
}

/// Manage the remote version cache.
#[derive(Clone, Copy, Debug, PartialEq, Eq, Structural)]
pub struct Cache {
    pub action: CacheAction,
}

/// A cached remote index: a regular file named `remote_cache….json`.
pub open spec fn is_cache_file(name: Seq<char>, is_file: bool) -> bool {
    seq_starts_with(name, "remote_cache"@) && seq_ends_with(name, ".json"@) && is_file
}

/// The names of the cached indexes among `entries`, in listing order.
pub open spec fn cache_selection(entries: Seq<(String, bool)>) -> Seq<Seq<char>> {
    entries.filter(|e: (String, bool)| is_cache_file(e.0@, e.1)).map_values(|e: (String, bool)| e.0@)
}

/// The entries that stay once the cached indexes among `entries` are removed.
pub open spec fn kept_after_clear(entries: Seq<(String, bool)>) -> Seq<(String, bool)> {
    entries.filter(|e: (String, bool)| !is_cache_file(e.0@, e.1))
}

/// The cached indexes among the entries of the PVM directory (name, and
/// whether it is a regular file), in listing order.
pub fn cache_files(entries: &[(String, bool)]) -> (r: Vec<String>)
    ensures
        views(r@) == cache_selection(entries@),
{
    let ghost f = |e: (String, bool)| is_cache_file(e.0@, e.1);
    let ghost g = |e: (String, bool)| e.0@;
    let mut r: Vec<String> = Vec::new();
    let mut i: usize = 0;
    while i < entries.len()
        invariant
            i <= entries@.len(),
            f == (|e: (String, bool)| is_cache_file(e.0@, e.1)),
            g == (|e: (String, bool)| e.0@),
            views(r@) == entries@.take(i as int).filter(f).map_values(g),
        decreases entries.len() - i,
    {
        proof {
            assert(entries@.take(i + 1) =~= entries@.take(i as int).push(entries@[i as int]));
            entries@.take(i as int).lemma_filter_push(entries@[i as int], f);
        }
        let e = &entries[i];
        if starts_with(e.0.as_str(), "remote_cache") && ends_with(e.0.as_str(), ".json") && e.1 {
            let ghost before = r@;
            r.push(e.0.clone());
            proof {
                assert(views(r@) =~= views(before).push(e.0@));
                assert(entries@.take(i as int).filter(f).push(entries@[i as int]).map_values(g) =~= entries@.take(
                    i as int,
                ).filter(f).map_values(g).push(g(entries@[i as int])));
            }
        }
        i = i + 1;
    }
    assert(entries@.take(entries@.len() as int) =~= entries@);
    r
}

/// Clearing the cache is idempotent. Once the selected files are removed, the
/// directory holds exactly the other entries, in their order; every entry that
/// is not a cached index stays; what was removed and what stays together make
/// up the whole listing; and a second clear selects nothing, so it reports
/// that it removed no file.
pub proof fn law_cache_clear_idempotent(entries: Seq<(String, bool)>)
    ensures
        cache_selection(kept_after_clear(entries)) == Seq::<Seq<char>>::empty(),
        removed_text(cache_selection(kept_after_clear(entries)).len()) == removed_text(0),
        forall|i: int|
            0 <= i < entries.len() && !is_cache_file(entries[i].0@, entries[i].1)
                ==> kept_after_clear(entries).contains(#[trigger] entries[i]),
        cache_selection(entries).len() + kept_after_clear(entries).len() == entries.len(),
{
    let keep = |e: (String, bool)| !is_cache_file(e.0@, e.1);
    let take = |e: (String, bool)| is_cache_file(e.0@, e.1);
    let kept = entries.filter(keep);
    assert forall|i: int| 0 <= i < kept.len() implies !take(#[trigger] kept[i]) by {
        entries.lemma_filter_pred(keep, i);
        assert(keep(kept[i]));
    }
    lemma_filter_none(kept, take);
    assert(kept.filter(take).map_values(|e: (String, bool)| e.0@) =~= Seq::<Seq<char>>::empty());
    assert forall|i: int|
        0 <= i < entries.len() && !is_cache_file(entries[i].0@, entries[i].1) implies kept.contains(
        #[trigger] entries[i],
    ) by {
        entries.lemma_filter_contains(keep, i);
    }
    lemma_filter_partition(entries, take, keep);
}

/// Filtering by a predicate and by its negation splits a sequence in two.
proof fn lemma_filter_partition<A>(s: Seq<A>, p: spec_fn(A) -> bool, q: spec_fn(A) -> bool)
    requires
        forall|a: A| #[trigger] q(a) == !p(a),
    ensures
        s.filter(p).len() + s.filter(q).len() == s.len(),
    decreases s.len(),
{
    if s.len() > 0 {
        let init = s.drop_last();
        lemma_filter_partition(init, p, q);
        init.lemma_filter_push(s.last(), p);
        init.lemma_filter_push(s.last(), q);
        assert(init.push(s.last()) =~= s);
    } else {
        assert(s.filter(p) =~= Seq::<A>::empty());
        assert(s.filter(q) =~= Seq::<A>::empty());
    }
}

/// The report after removing `removed` files.
pub open spec fn removed_text(removed: nat) -> Seq<char> {
    "Removed "@ + decimal(removed) + " cached remote version index file"@ + if removed == 1 {
        ""@
    } else {
        "s"@
    }
}

/// The report after removing `removed` cached indexes.
pub fn removed_message(removed: u64) -> (r: String)
    ensures
        r@ == removed_text(removed as nat),
{
    let mut out = owned("Removed ");
    let n = u64_to_decimal(removed);
    append_str(&mut out, n.as_str());
    append_str(&mut out, " cached remote version index file");
    if removed == 1 {
        append_str(&mut out, "");
    } else {
        append_str(&mut out, "s");
    }
    out
}

} // verus!
