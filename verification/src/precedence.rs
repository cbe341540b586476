//! Ordering of version names by semantic-versioning precedence, through the
//! `semver` crate, and the sorts that use it.
use crate::text::{lemma_seq_lt_asymmetric, seq_lt, str_lt};
use vstd::prelude::*;

verus! {

broadcast use vstd::seq_lib::group_to_multiset_ensures;

// ---------------------------------------------------------------------------
// What the semver crate computes
// ---------------------------------------------------------------------------

/// The `(major, minor, patch)` numbers of `semver::Version::parse(s)`, or
/// `None` when the crate rejects `s`.
pub uninterp spec fn semver_parse(s: Seq<char>) -> Option<(u64, u64, u64)>;

/// `semver::Version::parse(a) < semver::Version::parse(b)` in the crate's
/// total order (major, minor, patch, pre-release, build metadata).
pub uninterp spec fn semver_less(a: Seq<char>, b: Seq<char>) -> bool;

/// `s` is a valid semantic version.
pub open spec fn semver_valid(s: Seq<char>) -> bool {
    semver_parse(s) is Some
}

/// Lexicographic order on `(major, minor, patch)`.
pub open spec fn triple_lt(x: (u64, u64, u64), y: (u64, u64, u64)) -> bool {
    x.0 < y.0 || (x.0 == y.0 && (x.1 < y.1 || (x.1 == y.1 && x.2 < y.2)))
}

/// Parses `s` with `semver::Version::parse` and returns its numeric core.
///
/// Trusted: the result is whatever the crate's parser gives, named
/// `semver_parse`; nothing is claimed about which strings it accepts.
#[verifier::external_body]
pub(crate) fn parse_core(s: &str) -> (r: Option<(u64, u64, u64)>)
    ensures
        r == semver_parse(s@),
{
    semver::Version::parse(s).ok().map(|v| (v.major, v.minor, v.patch))
}

/// A `-` occurs in `s` before any `+`. In a string that `semver::Version::parse`
/// accepts, the numeric core holds only digits and dots, a `-` right after it
/// opens the (non-empty) pre-release identifiers, and a `+` opens the build
/// metadata; so this says that the version has pre-release identifiers.
pub open spec fn has_pre_marker(s: Seq<char>) -> bool {
    exists|i: int| 0 <= i < s.len() && s[i] == '-' && forall|j: int| 0 <= j < i ==> s[j] != '+'
}

/// Whether the version that `s` parses to has pre-release identifiers
/// (`!version.pre.is_empty()`).
///
/// Trusted: for a string that parses, the answer is whether a `-` comes
/// before any `+` (`semver`'s parser reads the core, then `-` and the
/// pre-release identifiers, which may not be empty, then `+` and the build
/// metadata).
#[verifier::external_body]
pub(crate) fn has_pre_release(s: &str) -> (r: bool)
    requires
        semver_valid(s@),
    ensures
        r == has_pre_marker(s@),
{
    semver::Version::parse(s).map(|v| !v.pre.is_empty()).unwrap_or(false)
}

/// Compares the versions that `a` and `b` parse to with `semver::Version`'s `<`.
///
/// Trusted: the result is named `semver_less`. `Version` derives `Ord`
/// field by field (major, minor, patch, pre, build) and `Ord` is a total
/// order, so a `true` answer excludes the reverse one, and versions whose
/// numeric cores differ compare by those cores.
#[verifier::external_body]
pub(crate) fn less_than(a: &str, b: &str) -> (r: bool)
    requires
        semver_valid(a@),
        semver_valid(b@),
    ensures
        r == semver_less(a@, b@),
        r ==> !semver_less(b@, a@),
        semver_parse(a@)->0 != semver_parse(b@)->0 ==> (r <==> triple_lt(
            semver_parse(a@)->0,
            semver_parse(b@)->0,
        )),
{
    semver::Version::parse(a).ok() < semver::Version::parse(b).ok()
}

// ---------------------------------------------------------------------------
// Orders on version names
// ---------------------------------------------------------------------------

/// The orders by which lists of names are sorted.
#[derive(Clone, Copy, Debug, PartialEq, Eq, Structural)]
pub enum Order {
    /// By `semver::Version::parse(name).ok()`: names that do not parse come
    /// first, the others by semantic-version precedence.
    Installed,
    /// By `semver::Version::parse(name).unwrap_or(0.0.0)`.
    Available,
    /// By the characters, as `str` compares.
    Lexical,
}

/// The version an `Available`-ordered name stands for.
pub open spec fn available_key(s: Seq<char>) -> Seq<char> {
    if semver_valid(s) {
        s
    } else {
        "0.0.0"@
    }
}

/// `a` comes strictly before `b` in order `o`.
pub open spec fn order_lt(o: Order, a: Seq<char>, b: Seq<char>) -> bool {
    match o {
        Order::Installed => (!semver_valid(a) && semver_valid(b)) || (semver_valid(a)
            && semver_valid(b) && semver_less(a, b)),
        Order::Available => {
            let ka = available_key(a);
            let kb = available_key(b);
            semver_valid(ka) && semver_valid(kb) && semver_less(ka, kb)
        },
        Order::Lexical => seq_lt(a, b),
    }
}

/// Whether `a` comes strictly before `b` in order `o`.
pub fn order_less(o: Order, a: &str, b: &str) -> (r: bool)
    ensures
        r == order_lt(o, a@, b@),
        r ==> !order_lt(o, b@, a@),
{
    match o {
        Order::Installed => {
            let va = parse_core(a).is_some();
            let vb = parse_core(b).is_some();
            if !va {
                vb
            } else if !vb {
                false
            } else {
                less_than(a, b)
            }
        },
        Order::Available => {
            let ka: &str = if parse_core(a).is_some() {
                a
            } else {
                "0.0.0"
            };
            let kb: &str = if parse_core(b).is_some() {
                b
            } else {
                "0.0.0"
            };
            if parse_core(ka).is_some() && parse_core(kb).is_some() {
                less_than(ka, kb)
            } else {
                false
            }
        },
        Order::Lexical => {
            proof {
                lemma_seq_lt_asymmetric(a@, b@);
            }
            str_lt(a, b)
        },
    }
}

// ---------------------------------------------------------------------------
// Sorting
// ---------------------------------------------------------------------------

/// Values that carry a version name to sort by.
pub trait Named {
    spec fn name_view(&self) -> Seq<char>;

    fn name(&self) -> (r: &str)
        ensures
            r@ == self.name_view(),
    ;
}

impl Named for String {
    open spec fn name_view(&self) -> Seq<char> {
        self@
    }

    fn name(&self) -> (r: &str) {
        self.as_str()
    }
}

impl Named for (String, Vec<String>) {
    open spec fn name_view(&self) -> Seq<char> {
        self.0@
    }

    fn name(&self) -> (r: &str) {
        self.0.as_str()
    }
}

impl Named for (String, String) {
    open spec fn name_view(&self) -> Seq<char> {
        self.0@
    }

    fn name(&self) -> (r: &str) {
        self.0.as_str()
    }
}

/// No element of `s` is followed by one that comes strictly before it.
pub open spec fn sorted_by<T: Named>(o: Order, s: Seq<T>) -> bool {
    forall|i: int|
        0 <= i < s.len() - 1 ==> !order_lt(o, #[trigger] s[i + 1].name_view(), s[i].name_view())
}

/// The names of `s`.
pub open spec fn names_in<T: Named>(s: Seq<T>) -> Seq<Seq<char>> {
    s.map_values(|t: T| t.name_view())
}

/// The names among `names` that are not semantic versions, in order.
pub open spec fn unversioned(names: Seq<Seq<char>>) -> Seq<Seq<char>> {
    names.filter(|n: Seq<char>| !semver_valid(n))
}

/// Sorts `v` by order `o`. In the `Installed` order the names that are not
/// semantic versions all compare equal and keep their relative order.
pub fn sort_by_name<T: Named>(v: Vec<T>, o: Order) -> (r: Vec<T>)
    ensures
        r@.to_multiset() == v@.to_multiset(),
        sorted_by(o, r@),
        o == Order::Installed ==> unversioned(names_in(r@)) == unversioned(names_in(v@)),
{
    let ghost orig = v@;
    let ghost np = |n: Seq<char>| !semver_valid(n);
    let mut rest = v;
    let mut out: Vec<T> = Vec::new();
    assert(orig.skip(0) =~= orig);
    assert(names_in(orig.take(0)) =~= Seq::<Seq<char>>::empty());
    assert(names_in(out@) =~= Seq::<Seq<char>>::empty());
    while rest.len() > 0
        invariant
            out@.to_multiset().add(rest@.to_multiset()) == orig.to_multiset(),
            sorted_by(o, out@),
            rest@.len() <= orig.len(),
            rest@ == orig.skip(orig.len() - rest@.len()),
            np == (|n: Seq<char>| !semver_valid(n)),
            o == Order::Installed ==> names_in(out@).filter(np) == names_in(orig.take(orig.len() - rest@.len())).filter(np),
        decreases rest.len(),
    {
        let ghost consumed = orig.len() - rest@.len();
        let ghost before_rest = rest@;
        let x = rest.remove(0);
        let mut j = out.len();
        while j > 0 && order_less(o, x.name(), out[j - 1].name())
            invariant
                j <= out.len(),
                forall|k: int| j <= k < out.len() ==> order_lt(o, x.name_view(), #[trigger] out@[k].name_view()),
                forall|k: int| j <= k < out.len() ==> !order_lt(o, #[trigger] out@[k].name_view(), x.name_view()),
            decreases j,
        {
            j = j - 1;
        }
        let ghost before_out = out@;
        out.insert(j, x);
        proof {
            before_out.insert_ensures(j as int, x);
            assert(before_rest.drop_first() =~= orig.skip(consumed + 1));
            assert(x == orig[consumed]);
            if o == Order::Installed {
                let a = names_in(before_out.take(j as int));
                let b = names_in(before_out.skip(j as int));
                assert(names_in(before_out) =~= a + b);
                assert(names_in(out@) =~= a + seq![x.name_view()] + b);
                assert(names_in(orig.take(consumed + 1)) =~= names_in(orig.take(consumed)).push(x.name_view()));
                names_in(orig.take(consumed)).lemma_filter_push(x.name_view(), np);
                Seq::filter_distributes_over_add(a, b, np);
                Seq::filter_distributes_over_add(a + seq![x.name_view()], b, np);
                a.lemma_filter_push(x.name_view(), np);
                assert(a + seq![x.name_view()] =~= a.push(x.name_view()));
                if np(x.name_view()) {
                    assert forall|k: int| 0 <= k < b.len() implies !np(#[trigger] b[k]) by {
                        assert(b[k] == before_out[j + k].name_view());
                        assert(order_lt(o, x.name_view(), before_out[j + k].name_view()));
                    }
                    crate::text::lemma_filter_none(b, np);
                    assert(names_in(out@).filter(np) =~= names_in(before_out).filter(np).push(x.name_view()));
                } else {
                    assert(names_in(out@).filter(np) =~= names_in(before_out).filter(np));
                }
            }
            assert(before_rest.remove(0).to_multiset() == before_rest.to_multiset().remove(
                before_rest[0],
            ));
            assert(before_out.insert(j as int, x).to_multiset() == before_out.to_multiset().insert(
                x,
            ));
            assert forall|i: int| 0 <= i < out@.len() - 1 implies !order_lt(
                o,
                #[trigger] out@[i + 1].name_view(),
                out@[i].name_view(),
            ) by {
                if i + 1 < j {
                    assert(out@[i + 1] == before_out[i + 1]);
                    assert(out@[i] == before_out[i]);
                } else if i + 1 == j {
                    assert(out@[i + 1] == x);
                    assert(out@[i] == before_out[i]);
                } else if i == j {
                    assert(out@[i] == x);
                    assert(out@[i + 1] == before_out[i]);
                } else {
                    assert(out@[i + 1] == before_out[i]);
                    assert(out@[i] == before_out[i - 1]);
                }
            }
        }
    }
    proof {
        assert(orig.take(orig.len() as int) =~= orig);
    }
    out
}

// ---------------------------------------------------------------------------
// What the orders mean
// ---------------------------------------------------------------------------

/// Neighbouring names that are both semantic versions are in `semver`'s
/// order (the later is never less than the earlier), and a name that is
/// not a semantic version never follows one that is.
pub open spec fn semver_ordered_names(names: Seq<Seq<char>>) -> bool {
    forall|i: int|
        #![trigger names[i], names[i + 1]]
        0 <= i < names.len() - 1 ==> {
            &&& semver_valid(names[i]) && semver_valid(names[i + 1]) ==> !semver_less(names[i + 1], names[i])
            &&& semver_valid(names[i]) ==> semver_valid(names[i + 1])
        }
}

/// Neighbouring names that are both semantic versions are in `semver`'s
/// order (the later is never less than the earlier).
pub open spec fn semver_ordered_versions(names: Seq<Seq<char>>) -> bool {
    forall|i: int|
        #![trigger names[i], names[i + 1]]
        0 <= i < names.len() - 1 && semver_valid(names[i]) && semver_valid(names[i + 1]) ==> !semver_less(
            names[i + 1],
            names[i],
        )
}

/// A list sorted in the installed order lists the names that are not
/// semantic versions first and the semantic versions after them by
/// precedence: of two neighbouring versions the later is never less than
/// the earlier, so patches of one line stand in patch order (8.3.9 before
/// 8.3.10).
pub proof fn law_installed_order_is_semver_order<T: Named>(s: Seq<T>)
    requires
        sorted_by(Order::Installed, s),
    ensures
        semver_ordered_names(names_in(s)),
{
    let n = names_in(s);
    assert forall|i: int| #![trigger n[i], n[i + 1]] 0 <= i < n.len() - 1 implies {
        &&& semver_valid(n[i]) && semver_valid(n[i + 1]) ==> !semver_less(n[i + 1], n[i])
        &&& semver_valid(n[i]) ==> semver_valid(n[i + 1])
    } by {
        assert(!order_lt(Order::Installed, s[i + 1].name_view(), s[i].name_view()));
    }
}

/// A list sorted in the available order keeps neighbouring semantic
/// versions in precedence order: the later is never less than the earlier.
pub proof fn law_available_order_is_semver_order<T: Named>(s: Seq<T>)
    requires
        sorted_by(Order::Available, s),
    ensures
        semver_ordered_versions(names_in(s)),
{
    let n = names_in(s);
    assert forall|i: int|
        #![trigger n[i], n[i + 1]]
        0 <= i < n.len() - 1 && semver_valid(n[i]) && semver_valid(n[i + 1]) implies !semver_less(
        n[i + 1],
        n[i],
    ) by {
        assert(!order_lt(Order::Available, s[i + 1].name_view(), s[i].name_view()));
    }
}

} // verus!
