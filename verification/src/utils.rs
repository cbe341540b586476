//! Sorting version names by semantic-version precedence, with a numeric
//! fallback for names that are not semantic versions.
use crate::paths::{split, split_char};
use crate::precedence::{
    has_pre_release, less_than, parse_core, has_pre_marker, semver_less, semver_parse,
};
use crate::text::{parse_u64, parse_u64_str};
use vstd::prelude::*;

verus! {

broadcast use vstd::seq_lib::group_to_multiset_ensures;

/// How two version names compare.
#[derive(Clone, Copy, Debug, PartialEq, Eq, Structural)]
pub enum Precedence {
    Less,
    Equal,
    Greater,
}

/// The numbers among `pieces` (those `str::parse::<u64>` accepts), in order.
pub open spec fn numbers_of(pieces: Seq<Seq<char>>) -> Seq<u64>
    decreases pieces.len(),
{
    if pieces.len() == 0 {
        seq![]
    } else {
        let init = numbers_of(pieces.drop_last());
        match parse_u64(pieces.last()) {
            Some(n) => init.push(n),
            None => init,
        }
    }
}

/// The numeric pieces of a name: its `.`-separated pieces that are numbers.
pub open spec fn numeric_parts(s: Seq<char>) -> Seq<u64> {
    numbers_of(split(s, '.'))
}

/// Lexicographic comparison of number sequences (as `Vec<u64>` compares).
pub open spec fn lex(a: Seq<u64>, b: Seq<u64>) -> Precedence
    decreases a.len(),
{
    if a.len() == 0 && b.len() == 0 {
        Precedence::Equal
    } else if a.len() == 0 {
        Precedence::Less
    } else if b.len() == 0 {
        Precedence::Greater
    } else if a[0] < b[0] {
        Precedence::Less
    } else if a[0] > b[0] {
        Precedence::Greater
    } else {
        lex(a.drop_first(), b.drop_first())
    }
}

/// `(major, minor, patch)` as a number sequence.
pub open spec fn core_parts(t: (u64, u64, u64)) -> Seq<u64> {
    seq![t.0, t.1, t.2]
}

/// How `a` compares with `b`: two semantic versions by precedence; a
/// semantic version and another name by the numbers of both, a tie going
/// to the name without pre-release identifiers; two other names by their
/// numbers.
pub open spec fn version_precedence(a: Seq<char>, b: Seq<char>) -> Precedence {
    match (semver_parse(a), semver_parse(b)) {
        (Some(_), Some(_)) => if semver_less(a, b) {
            Precedence::Less
        } else if semver_less(b, a) {
            Precedence::Greater
        } else {
            Precedence::Equal
        },
        (Some(ta), None) => match lex(core_parts(ta), numeric_parts(b)) {
            Precedence::Equal => if has_pre_marker(a) {
                Precedence::Less
            } else {
                Precedence::Equal
            },
            o => o,
        },
        (None, Some(tb)) => match lex(numeric_parts(a), core_parts(tb)) {
            Precedence::Equal => if has_pre_marker(b) {
                Precedence::Greater
            } else {
                Precedence::Equal
            },
            o => o,
        },
        (None, None) => lex(numeric_parts(a), numeric_parts(b)),
    }
}

/// `lex` is antisymmetric.
proof fn lemma_lex_antisymmetric(a: Seq<u64>, b: Seq<u64>)
    ensures
        lex(a, b) == Precedence::Greater <==> lex(b, a) == Precedence::Less,
        lex(a, b) == Precedence::Equal <==> lex(b, a) == Precedence::Equal,
    decreases a.len(),
{
    if a.len() > 0 && b.len() > 0 && a[0] == b[0] {
        lemma_lex_antisymmetric(a.drop_first(), b.drop_first());
    }
}

/// A name that compares greater than another is compared less by it.
pub proof fn lemma_precedence_antisymmetric(a: Seq<char>, b: Seq<char>)
    ensures
        version_precedence(a, b) == Precedence::Greater ==> version_precedence(b, a) == Precedence::Less,
{
    match (semver_parse(a), semver_parse(b)) {
        (Some(ta), None) => lemma_lex_antisymmetric(core_parts(ta), numeric_parts(b)),
        (None, Some(tb)) => lemma_lex_antisymmetric(numeric_parts(a), core_parts(tb)),
        (None, None) => lemma_lex_antisymmetric(numeric_parts(a), numeric_parts(b)),
        _ => {},
    }
}

/// The numeric pieces of `s`.
fn numeric_parts_of(s: &str) -> (r: Vec<u64>)
    ensures
        r@ == numeric_parts(s@),
{
    let pieces = split_char(s, '.');
    let ghost ps = split(s@, '.');
    let mut r: Vec<u64> = Vec::new();
    let mut i: usize = 0;
    while i < pieces.len()
        invariant
            i <= pieces@.len(),
            ps == split(s@, '.'),
            pieces@.len() == ps.len(),
            forall|k: int| 0 <= k < pieces@.len() ==> #[trigger] pieces@[k]@ == ps[k],
            r@ == numbers_of(ps.take(i as int)),
        decreases pieces.len() - i,
    {
        proof {
            assert(ps.take(i + 1).drop_last() =~= ps.take(i as int));
            assert(ps.take(i + 1).last() == pieces@[i as int]@);
        }
        match parse_u64_str(pieces[i].as_str()) {
            Some(n) => r.push(n),
            None => {},
        }
        i = i + 1;
    }
    assert(ps.take(pieces@.len() as int) =~= ps);
    r
}

/// Compares two number sequences.
fn lex_of(a: &Vec<u64>, b: &Vec<u64>) -> (r: Precedence)
    ensures
        r == lex(a@, b@),
{
    let mut i: usize = 0;
    assert(a@.skip(0) =~= a@);
    assert(b@.skip(0) =~= b@);
    while i < a.len() && i < b.len()
        invariant
            i <= a@.len(),
            i <= b@.len(),
            lex(a@, b@) == lex(a@.skip(i as int), b@.skip(i as int)),
        decreases a.len() - i,
    {
        let ghost sa = a@.skip(i as int);
        let ghost sb = b@.skip(i as int);
        assert(sa[0] == a@[i as int]);
        assert(sb[0] == b@[i as int]);
        if a[i] < b[i] {
            return Precedence::Less;
        } else if a[i] > b[i] {
            return Precedence::Greater;
        }
        assert(sa.drop_first() =~= a@.skip(i + 1));
        assert(sb.drop_first() =~= b@.skip(i + 1));
        i = i + 1;
    }
    let ghost sa = a@.skip(i as int);
    let ghost sb = b@.skip(i as int);
    if i == a.len() && i == b.len() {
        assert(sa.len() == 0 && sb.len() == 0);
        Precedence::Equal
    } else if i == a.len() {
        assert(sa.len() == 0 && sb.len() > 0);
        Precedence::Less
    } else {
        assert(sa.len() > 0 && sb.len() == 0);
        Precedence::Greater
    }
}

/// How version name `a` compares with `b`.
pub fn compare_versions(a: &str, b: &str) -> (r: Precedence)
    ensures
        r == version_precedence(a@, b@),
{
    let pa = parse_core(a);
    let pb = parse_core(b);
    match (pa, pb) {
        (Some(_), Some(_)) => {
            if less_than(a, b) {
                Precedence::Less
            } else if less_than(b, a) {
                Precedence::Greater
            } else {
                Precedence::Equal
            }
        },
        (Some(ta), None) => {
            let mut core: Vec<u64> = Vec::new();
            core.push(ta.0);
            core.push(ta.1);
            core.push(ta.2);
            assert(core@ =~= core_parts(ta));
            let nb = numeric_parts_of(b);
            match lex_of(&core, &nb) {
                Precedence::Equal => {
                    if has_pre_release(a) {
                        Precedence::Less
                    } else {
                        Precedence::Equal
                    }
                },
                o => o,
            }
        },
        (None, Some(tb)) => {
            let mut core: Vec<u64> = Vec::new();
            core.push(tb.0);
            core.push(tb.1);
            core.push(tb.2);
            assert(core@ =~= core_parts(tb));
            let na = numeric_parts_of(a);
            match lex_of(&na, &core) {
                Precedence::Equal => {
                    if has_pre_release(b) {
                        Precedence::Greater
                    } else {
                        Precedence::Equal
                    }
                },
                o => o,
            }
        },
        (None, None) => {
            let na = numeric_parts_of(a);
            let nb = numeric_parts_of(b);
            lex_of(&na, &nb)
        },
    }
}

/// The name at `k` does not compare greater than the one after it.
pub open spec fn in_order(s: Seq<String>, k: int) -> bool {
    version_precedence(s[k]@, s[k + 1]@) != Precedence::Greater
}

/// Sorts version names using semantic versioning; names that are not
/// semantic versions are compared by their numeric pieces. Afterwards no
/// name compares greater than the one after it, and the names are the same.
pub fn sort_versions(versions: &mut [String])
    ensures
        final(versions)@.to_multiset() == old(versions)@.to_multiset(),
        forall|k: int| 0 <= k < final(versions)@.len() - 1 ==> #[trigger] in_order(final(versions)@, k),
{
    let n = versions.len();
    if n == 0 {
        return;
    }
    let mut i: usize = 1;
    while i < n
        invariant
            n == versions@.len(),
            1 <= i <= n,
            versions@.to_multiset() == old(versions)@.to_multiset(),
            forall|k: int| 0 <= k < i - 1 ==> #[trigger] in_order(versions@, k),
        decreases n - i,
    {
        let mut j: usize = i;
        while j > 0 && compare_versions(versions[j - 1].as_str(), versions[j].as_str()) == Precedence::Greater
            invariant
                n == versions@.len(),
                1 <= i < n,
                j <= i,
                versions@.to_multiset() == old(versions)@.to_multiset(),
                forall|k: int| 0 <= k < j - 1 ==> #[trigger] in_order(versions@, k),
                forall|k: int| j <= k < i ==> #[trigger] in_order(versions@, k),
                0 < j < i ==> version_precedence(versions@[j - 1]@, versions@[j + 1]@) != Precedence::Greater,
            decreases j,
        {
            let ghost v = versions@;
            let a = versions[j - 1].clone();
            let b = versions[j].clone();
            versions[j - 1] = b;
            versions[j] = a;
            proof {
                let w = versions@;
                assert(w =~= v.update(j - 1, v[j as int]).update(j as int, v[j - 1]));
                lemma_swap_multiset(v, j - 1);
                lemma_precedence_antisymmetric(v[j - 1]@, v[j as int]@);
                assert(in_order(w, j - 1));
                assert forall|k: int| 0 <= k < j - 2 implies #[trigger] in_order(w, k) by {
                    assert(in_order(v, k));
                }
                assert forall|k: int| j - 1 <= k < i implies #[trigger] in_order(w, k) by {
                    if k == j {
                        assert(w[k + 1] == v[k + 1]);
                    } else if k > j {
                        assert(in_order(v, k));
                    }
                }
                if j - 1 > 0 {
                    assert(in_order(v, j - 2));
                }
            }
            j = j - 1;
        }
        proof {
            assert forall|k: int| 0 <= k < i implies #[trigger] in_order(versions@, k) by {
                if j > 0 && k == j - 1 {
                    assert(in_order(versions@, k));
                }
            }
        }
        i = i + 1;
    }
}

/// Swapping two neighbours keeps the multiset.
proof fn lemma_swap_multiset<A>(s: Seq<A>, k: int)
    requires
        0 <= k < s.len() - 1,
    ensures
        s.update(k, s[k + 1]).update(k + 1, s[k]).to_multiset() == s.to_multiset(),
{
    let t = s.update(k, s[k + 1]).update(k + 1, s[k]);
    assert(t.to_multiset() =~= s.to_multiset()) by {
        assert forall|x: A| t.to_multiset().count(x) == s.to_multiset().count(x) by {
            s.to_multiset_ensures();
            t.to_multiset_ensures();
            let a = s.subrange(0, k);
            let c = s.subrange(k + 2, s.len() as int);
            assert(s =~= a + seq![s[k], s[k + 1]] + c);
            assert(t =~= a + seq![s[k + 1], s[k]] + c);
            vstd::seq_lib::lemma_multiset_commutative(a + seq![s[k], s[k + 1]], c);
            vstd::seq_lib::lemma_multiset_commutative(a + seq![s[k + 1], s[k]], c);
            vstd::seq_lib::lemma_multiset_commutative(a, seq![s[k], s[k + 1]]);
            vstd::seq_lib::lemma_multiset_commutative(a, seq![s[k + 1], s[k]]);
            assert(seq![s[k], s[k + 1]].to_multiset() =~= seq![s[k + 1], s[k]].to_multiset()) by {
                assert(seq![s[k], s[k + 1]] =~= seq![s[k]].push(s[k + 1]));
                assert(seq![s[k + 1], s[k]] =~= seq![s[k + 1]].push(s[k]));
                assert(seq![s[k]] =~= Seq::<A>::empty().push(s[k]));
                assert(seq![s[k + 1]] =~= Seq::<A>::empty().push(s[k + 1]));
            }
        }
    }
}

} // verus!
