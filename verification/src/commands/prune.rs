//! `pvm prune`: which superseded patch versions go, and where a pruned
//! default version is re-pointed.
use crate::fs::{has_minor, highest_of_minor, minor_of, minor_spec};
use crate::text::{opt_string, owned, str_eq, views};
use vstd::prelude::*;

verus! {

/// Remove superseded patch versions.
#[derive(Clone, Debug, PartialEq)]
pub struct Prune {
    /// Auto-approve the removal without prompting.
    pub yes: bool,
}

/// The newest patch of `v`'s minor line among `s` (the keeper of that line).
pub open spec fn keeper_of(s: Seq<Seq<char>>, v: Seq<char>) -> Seq<char> {
    highest_of_minor(s, minor_spec(v)->0)
}

/// `v` is superseded: it lies on a minor line whose newest patch is another
/// version, and it is not the active version.
pub open spec fn superseded(s: Seq<Seq<char>>, v: Seq<char>, current: Seq<char>) -> bool {
    minor_spec(v) is Some && v != keeper_of(s, v) && v != current
}

/// What prune removes, with the version that supersedes each, in the order
/// of `s` (the installed versions, oldest first).
pub open spec fn prune_candidates(s: Seq<Seq<char>>, current: Seq<char>) -> Seq<(Seq<char>, Seq<char>)> {
    s.filter(|v: Seq<char>| superseded(s, v, current)).map_values(|v: Seq<char>| (v, keeper_of(s, v)))
}

/// The views of removal pairs.
pub open spec fn pair_views(p: Seq<(String, String)>) -> Seq<(Seq<char>, Seq<char>)> {
    p.map_values(|e: (String, String)| (e.0@, e.1@))
}

/// The keeper of line `m` lies on that line, is one of `s`, and nothing
/// after it in `s` lies on that line.
pub proof fn lemma_highest_of_minor(s: Seq<Seq<char>>, m: Seq<char>)
    requires
        has_minor(s, m),
    ensures
        minor_spec(highest_of_minor(s, m)) == Some(m),
        exists|k: int|
            0 <= k < s.len() && s[k] == highest_of_minor(s, m) && forall|j: int|
                k < j < s.len() ==> minor_spec(#[trigger] s[j]) != Some(m),
    decreases s.len(),
{
    if minor_spec(s.last()) == Some(m) {
        assert(s[s.len() - 1] == s.last());
    } else {
        let init = s.drop_last();
        let w = choose|k: int| 0 <= k < s.len() && minor_spec(s[k]) == Some(m);
        assert(w < s.len() - 1);
        assert(init[w] == s[w]);
        lemma_highest_of_minor(init, m);
        let k = choose|k: int|
            0 <= k < init.len() && init[k] == highest_of_minor(init, m) && forall|j: int|
                k < j < init.len() ==> minor_spec(#[trigger] init[j]) != Some(m);
        assert(s[k] == init[k]);
        assert forall|j: int| k < j < s.len() implies minor_spec(#[trigger] s[j]) != Some(m) by {
            if j < s.len() - 1 {
                assert(s[j] == init[j]);
            }
        }
    }
}

/// The newest patch of line `m` among `installed`.
fn highest_with_minor(installed: &[String], m: &str) -> (r: String)
    ensures
        r@ == highest_of_minor(views(installed@), m@),
{
    let mut k: usize = installed.len();
    assert(views(installed@).take(k as int) =~= views(installed@));
    while k > 0
        invariant
            k <= installed@.len(),
            highest_of_minor(views(installed@), m@) == highest_of_minor(views(installed@).take(k as int), m@),
        decreases k,
    {
        let ghost t = views(installed@).take(k as int);
        proof {
            assert(t.last() == installed@[k - 1]@);
            assert(t.drop_last() =~= views(installed@).take(k - 1));
        }
        let mk = minor_of(installed[k - 1].as_str());
        match mk {
            Some(x) => {
                if str_eq(x.as_str(), m) {
                    return installed[k - 1].clone();
                }
            },
            None => {},
        }
        k = k - 1;
    }
    proof {
        assert(views(installed@).take(0) =~= Seq::<Seq<char>>::empty());
    }
    String::new()
}

/// The superseded versions among `installed` (as `list_installed_versions`
/// gives them, oldest first), each with the newest patch of its minor line
/// that supersedes it. The newest patch of every line stays, and so does the
/// active version `current`.
pub fn prune_plan(installed: &[String], current: &str) -> (r: Vec<(String, String)>)
    ensures
        pair_views(r@) == prune_candidates(views(installed@), current@),
{
    let ghost s = views(installed@);
    let ghost sup = |v: Seq<char>| superseded(s, v, current@);
    let ghost pair = |v: Seq<char>| (v, keeper_of(s, v));
    let mut r: Vec<(String, String)> = Vec::new();
    let mut i: usize = 0;
    while i < installed.len()
        invariant
            i <= installed@.len(),
            s == views(installed@),
            sup == (|v: Seq<char>| superseded(s, v, current@)),
            pair == (|v: Seq<char>| (v, keeper_of(s, v))),
            pair_views(r@) == s.take(i as int).filter(sup).map_values(pair),
        decreases installed.len() - i,
    {
        let v = &installed[i];
        proof {
            assert(s.take(i + 1) =~= s.take(i as int).push(s[i as int]));
            s.take(i as int).lemma_filter_push(s[i as int], sup);
            assert(s[i as int] == v@);
        }
        let mk = minor_of(v.as_str());
        match mk {
            Some(m) => {
                let keeper = highest_with_minor(installed, m.as_str());
                if !str_eq(v.as_str(), keeper.as_str()) && !str_eq(v.as_str(), current) {
                    let ghost before = r@;
                    r.push((v.clone(), keeper));
                    proof {
                        assert(pair_views(r@) =~= pair_views(before).push((v@, keeper_of(s, v@))));
                        assert(s.take(i as int).filter(sup).push(v@).map_values(pair) =~= s.take(
                            i as int,
                        ).filter(sup).map_values(pair).push(pair(v@)));
                    }
                }
            },
            None => {},
        }
        i = i + 1;
    }
    assert(s.take(installed.len() as int) =~= s);
    r
}

/// Pruning keeps what it promises to keep: the active version is never
/// removed, the newest patch of every minor line is never removed, and each
/// removed version is superseded by an installed newer patch of its own
/// line, listed after it.
pub proof fn law_prune_keeps_newest_and_active(s: Seq<Seq<char>>, current: Seq<char>)
    ensures
        forall|i: int|
            0 <= i < prune_candidates(s, current).len() ==> {
                let (v, k) = #[trigger] prune_candidates(s, current)[i];
                &&& v != current
                &&& v != k
                &&& minor_spec(k) == minor_spec(v)
                &&& exists|a: int, b: int| 0 <= a < b < s.len() && s[a] == v && s[b] == k
            },
        forall|i: int, m: Seq<char>|
            #![trigger prune_candidates(s, current)[i], highest_of_minor(s, m)]
            0 <= i < prune_candidates(s, current).len() && has_minor(s, m) ==> prune_candidates(
                s,
                current,
            )[i].0 != highest_of_minor(s, m),
{
    let sup = |v: Seq<char>| superseded(s, v, current);
    let f = s.filter(sup);
    assert forall|i: int| 0 <= i < prune_candidates(s, current).len() implies {
        let (v, k) = #[trigger] prune_candidates(s, current)[i];
        &&& v != current
        &&& v != k
        &&& minor_spec(k) == minor_spec(v)
        &&& exists|a: int, b: int| 0 <= a < b < s.len() && s[a] == v && s[b] == k
    } by {
        s.lemma_filter_pred(sup, i);
        let v = f[i];
        let m = minor_spec(v)->0;
        assert(f.contains(v));
        s.lemma_filter_contains_rev(sup, v);
        let a = choose|a: int| 0 <= a < s.len() && s[a] == v;
        assert(has_minor(s, m));
        lemma_highest_of_minor(s, m);
        let b = choose|b: int|
            0 <= b < s.len() && s[b] == highest_of_minor(s, m) && forall|j: int|
                b < j < s.len() ==> minor_spec(#[trigger] s[j]) != Some(m);
        if a > b {
            assert(minor_spec(s[a]) != Some(m));
        }
        assert(a != b);
    }
    assert forall|i: int, m: Seq<char>|
        #![trigger prune_candidates(s, current)[i], highest_of_minor(s, m)]
        0 <= i < prune_candidates(s, current).len() && has_minor(s, m) implies prune_candidates(
        s,
        current,
    )[i].0 != highest_of_minor(s, m) by {
        s.lemma_filter_pred(sup, i);
        let v = f[i];
        if v == highest_of_minor(s, m) {
            lemma_highest_of_minor(s, m);
            assert(minor_spec(v) == Some(m));
        }
    }
}

/// Where the default version goes when it is pruned: the version that
/// supersedes it (the first pair that removes it), or `None` when it stays.
pub open spec fn repointed_default(cands: Seq<(Seq<char>, Seq<char>)>, default: Seq<char>) -> Option<Seq<char>>
    decreases cands.len(),
{
    if cands.len() == 0 {
        None
    } else if repointed_default(cands.drop_last(), default) is Some {
        repointed_default(cands.drop_last(), default)
    } else if cands.last().0 == default {
        Some(cands.last().1)
    } else {
        None
    }
}

/// The new default when the default version `default` is among the pruned
/// versions `cands`: the keeper of its minor line.
pub fn repoint_default(cands: &[(String, String)], default: &str) -> (r: Option<String>)
    ensures
        opt_string(r) == repointed_default(pair_views(cands@), default@),
{
    let mut i: usize = 0;
    while i < cands.len()
        invariant
            i <= cands@.len(),
            repointed_default(pair_views(cands@).take(i as int), default@) is None,
        decreases cands.len() - i,
    {
        proof {
            assert(pair_views(cands@).take(i + 1).drop_last() =~= pair_views(cands@).take(i as int));
        }
        if str_eq(cands[i].0.as_str(), default) {
            proof {
                lemma_repointed_prefix(pair_views(cands@), default@, i + 1);
            }
            return Some(cands[i].1.clone());
        }
        i = i + 1;
    }
    assert(pair_views(cands@).take(cands@.len() as int) =~= pair_views(cands@));
    None
}

/// The first pair removing `default` decides, whatever follows it.
proof fn lemma_repointed_prefix(c: Seq<(Seq<char>, Seq<char>)>, default: Seq<char>, n: int)
    requires
        0 < n <= c.len(),
        repointed_default(c.take(n - 1), default) is None,
        c[n - 1].0 == default,
    ensures
        repointed_default(c, default) == Some(c[n - 1].1),
    decreases c.len(),
{
    assert(c.take(n).drop_last() =~= c.take(n - 1));
    if n < c.len() {
        assert(c.drop_last().take(n - 1) =~= c.take(n - 1));
        assert(c.drop_last()[n - 1] == c[n - 1]);
        lemma_repointed_prefix(c.drop_last(), default, n);
    } else {
        assert(c.take(n) =~= c);
    }
}

/// `repointed_default` over pairs whose second part is a function of the
/// first.
proof fn lemma_repointed_by_key(c: Seq<(Seq<char>, Seq<char>)>, default: Seq<char>, k: Seq<char>)
    requires
        forall|i: int| 0 <= i < c.len() && (#[trigger] c[i]).0 == default ==> c[i].1 == k,
    ensures
        repointed_default(c, default) == if exists|i: int| 0 <= i < c.len() && (#[trigger] c[i]).0 == default {
            Some(k)
        } else {
            None
        },
    decreases c.len(),
{
    if c.len() > 0 {
        let init = c.drop_last();
        assert forall|i: int| 0 <= i < init.len() && (#[trigger] init[i]).0 == default implies init[i].1 == k by {
            assert(init[i] == c[i]);
        }
        lemma_repointed_by_key(init, default, k);
        if exists|i: int| 0 <= i < init.len() && (#[trigger] init[i]).0 == default {
            let i = choose|i: int| 0 <= i < init.len() && (#[trigger] init[i]).0 == default;
            assert(c[i] == init[i]);
        }
        if exists|i: int| 0 <= i < c.len() && (#[trigger] c[i]).0 == default {
            let i = choose|i: int| 0 <= i < c.len() && (#[trigger] c[i]).0 == default;
            if i < c.len() - 1 {
                assert(init[i] == c[i]);
            } else {
                assert(c.last() == c[i]);
            }
        }
    }
}

/// A pruned default version moves to the version that superseded it, the
/// newest patch of its line; a default that stays is left alone.
pub proof fn law_pruned_default_moves_to_keeper(s: Seq<Seq<char>>, current: Seq<char>, default: Seq<char>)
    ensures
        repointed_default(prune_candidates(s, current), default) == if s.contains(default) && superseded(
            s,
            default,
            current,
        ) {
            Some(keeper_of(s, default))
        } else {
            None
        },
{
    let sup = |v: Seq<char>| superseded(s, v, current);
    let c = prune_candidates(s, current);
    let f = s.filter(sup);
    assert forall|i: int| 0 <= i < c.len() && (#[trigger] c[i]).0 == default implies c[i].1 == keeper_of(
        s,
        default,
    ) by {}
    lemma_repointed_by_key(c, default, keeper_of(s, default));
    if s.contains(default) && superseded(s, default, current) {
        let a = choose|a: int| 0 <= a < s.len() && s[a] == default;
        s.lemma_filter_contains(sup, a);
        let i = choose|i: int| 0 <= i < f.len() && f[i] == default;
        assert(c[i].0 == default);
    } else {
        if exists|i: int| 0 <= i < c.len() && (#[trigger] c[i]).0 == default {
            let i = choose|i: int| 0 <= i < c.len() && (#[trigger] c[i]).0 == default;
            s.lemma_filter_pred(sup, i);
            assert(f.contains(f[i]));
            s.lemma_filter_contains_rev(sup, f[i]);
        }
    }
}

/// The message given when pruning would need a confirmation that cannot be
/// asked.
pub fn prune_refusal_message() -> (r: String)
    ensures
        r@ == "Refusing to remove superseded versions without confirmation; pass --yes."@,
{
    owned("Refusing to remove superseded versions without confirmation; pass --yes.")
}

} // verus!
