//! Unix path strings: joining, splitting into components, and the few
//! questions pvm asks of them.
use crate::text::{append_str, chars_of, owned, push_char, seq_starts_with, str_eq};
use vstd::prelude::*;

verus! {

// ---------------------------------------------------------------------------
// Splitting
// ---------------------------------------------------------------------------

/// The pieces of `s` between occurrences of `c` (as `str::split`: always at
/// least one piece, empty pieces kept).
pub open spec fn split(s: Seq<char>, c: char) -> Seq<Seq<char>>
    decreases s.len(),
{
    if s.len() == 0 {
        seq![seq![]]
    } else if s.last() == c {
        split(s.drop_last(), c).push(seq![])
    } else {
        let p = split(s.drop_last(), c);
        p.update(p.len() - 1, p.last().push(s.last()))
    }
}

/// `split` always yields at least one piece.
pub proof fn lemma_split_len(s: Seq<char>, c: char)
    ensures
        split(s, c).len() >= 1,
    decreases s.len(),
{
    if s.len() > 0 {
        lemma_split_len(s.drop_last(), c);
    }
}

/// A piece without `c` splits into itself.
pub proof fn lemma_split_plain(t: Seq<char>, c: char)
    requires
        crate::text::no_char(t, c),
    ensures
        split(t, c) == seq![t],
    decreases t.len(),
{
    if t.len() > 0 {
        lemma_split_plain(t.drop_last(), c);
        assert(t.drop_last().push(t.last()) =~= t);
    } else {
        assert(t =~= Seq::<char>::empty());
    }
}

/// Splitting `a`, `c`, `t` (with no `c` in `t`) adds `t` as one more piece.
pub proof fn lemma_split_append(a: Seq<char>, t: Seq<char>, c: char)
    requires
        crate::text::no_char(t, c),
    ensures
        split(a + seq![c] + t, c) == split(a, c).push(t),
    decreases t.len(),
{
    let s = a + seq![c] + t;
    if t.len() == 0 {
        assert(s.drop_last() =~= a);
        assert(t =~= Seq::<char>::empty());
    } else {
        lemma_split_append(a, t.drop_last(), c);
        assert(s.drop_last() =~= a + seq![c] + t.drop_last());
        assert(s.last() == t.last());
        assert(t.last() != c);
        assert(t.drop_last().push(t.last()) =~= t);
        assert(split(a, c).push(t.drop_last()).update(split(a, c).len() as int, t) =~= split(a, c).push(t));
    }
}

/// Splitting a joined list of pieces without the separator gives the
/// pieces back.
pub proof fn lemma_split_join(parts: Seq<Seq<char>>, c: char)
    requires
        parts.len() >= 1,
        forall|i: int| 0 <= i < parts.len() ==> crate::text::no_char(#[trigger] parts[i], c),
    ensures
        split(crate::text::join(parts, seq![c]), c) == parts,
    decreases parts.len(),
{
    if parts.len() == 1 {
        lemma_split_plain(parts[0], c);
        assert(seq![parts[0]] =~= parts);
    } else {
        let init = parts.drop_last();
        assert forall|i: int| 0 <= i < init.len() implies crate::text::no_char(#[trigger] init[i], c) by {
            assert(init[i] == parts[i]);
        }
        lemma_split_join(init, c);
        assert(crate::text::no_char(parts[parts.len() - 1], c));
        lemma_split_append(crate::text::join(init, seq![c]), parts.last(), c);
        assert(init.push(parts.last()) =~= parts);
    }
}

/// Splitting at a separator splits each side.
pub proof fn lemma_split_concat(a: Seq<char>, t: Seq<char>, c: char)
    ensures
        split(a + seq![c] + t, c) == split(a, c) + split(t, c),
    decreases t.len(),
{
    let s = a + seq![c] + t;
    if t.len() == 0 {
        assert(s.drop_last() =~= a);
        assert(split(t, c) =~= seq![Seq::<char>::empty()]);
        assert(split(a, c).push(seq![]) =~= split(a, c) + split(t, c));
    } else {
        lemma_split_concat(a, t.drop_last(), c);
        assert(s.drop_last() =~= a + seq![c] + t.drop_last());
        assert(s.last() == t.last());
        let pa = split(a, c);
        let pt = split(t.drop_last(), c);
        lemma_split_len(t.drop_last(), c);
        if t.last() == c {
            assert((pa + pt).push(seq![]) =~= pa + pt.push(seq![]));
        } else {
            let joined = pa + pt;
            assert(joined.last() == pt.last());
            assert(joined.update(joined.len() - 1, joined.last().push(t.last())) =~= pa + pt.update(
                pt.len() - 1,
                pt.last().push(t.last()),
            ));
        }
    }
}

/// Joining the pieces of a split with the separator gives the text back.
pub proof fn lemma_join_split(s: Seq<char>, c: char)
    ensures
        crate::text::join(split(s, c), seq![c]) == s,
    decreases s.len(),
{
    if s.len() > 0 {
        let t = s.drop_last();
        lemma_join_split(t, c);
        lemma_split_len(t, c);
        let p = split(t, c);
        if s.last() == c {
            crate::text::lemma_join_push(p, seq![c], seq![]);
            assert(t + seq![c] + Seq::<char>::empty() =~= s);
        } else {
            let q = p.update(p.len() - 1, p.last().push(s.last()));
            assert(q.drop_last() =~= p.drop_last());
            if p.len() == 1 {
                assert(q.len() == 1);
                assert(p[0] == p.last());
                assert(t.push(s.last()) =~= s);
            } else {
                assert(crate::text::join(p, seq![c]) == crate::text::join(p.drop_last(), seq![c]) + seq![c]
                    + p.last());
                assert(crate::text::join(p.drop_last(), seq![c]) + seq![c] + p.last().push(s.last()) =~= t.push(
                    s.last(),
                ));
                assert(t.push(s.last()) =~= s);
            }
        }
    }
}

/// Joining two non-empty lists of parts joins their joins.
pub proof fn lemma_join_concat(a: Seq<Seq<char>>, b: Seq<Seq<char>>, sep: Seq<char>)
    requires
        a.len() > 0,
        b.len() > 0,
    ensures
        crate::text::join(a + b, sep) == crate::text::join(a, sep) + sep + crate::text::join(b, sep),
    decreases b.len(),
{
    if b.len() == 1 {
        assert((a + b).drop_last() =~= a);
        assert((a + b).last() == b[0]);
    } else {
        lemma_join_concat(a, b.drop_last(), sep);
        assert((a + b).drop_last() =~= a + b.drop_last());
        assert((a + b).last() == b.last());
        assert(crate::text::join(a, sep) + sep + (crate::text::join(b.drop_last(), sep) + sep + b.last())
            =~= crate::text::join(a, sep) + sep + crate::text::join(b.drop_last(), sep) + sep + b.last());
    }
}

/// The pieces of `s` between occurrences of `c`.
pub fn split_char(s: &str, c: char) -> (r: Vec<String>)
    ensures
        r@.len() == split(s@, c).len(),
        forall|i: int| 0 <= i < r@.len() ==> #[trigger] r@[i]@ == split(s@, c)[i],
{
    let v = chars_of(s);
    let mut pieces: Vec<String> = Vec::new();
    let mut cur = String::new();
    let mut i: usize = 0;
    while i < v.len()
        invariant
            v@ == s@,
            i <= v.len(),
            pieces@.len() + 1 == split(v@.take(i as int), c).len(),
            forall|k: int| 0 <= k < pieces@.len() ==> #[trigger] pieces@[k]@ == split(v@.take(i as int), c)[k],
            cur@ == split(v@.take(i as int), c).last(),
        decreases v.len() - i,
    {
        proof {
            assert(v@.take(i + 1).drop_last() =~= v@.take(i as int));
            lemma_split_len(v@.take(i as int), c);
        }
        if v[i] == c {
            let done = cur;
            pieces.push(done);
            cur = String::new();
        } else {
            push_char(&mut cur, v[i]);
        }
        i = i + 1;
    }
    assert(v@.take(v.len() as int) =~= v@);
    pieces.push(cur);
    pieces
}

// ---------------------------------------------------------------------------
// Components
// ---------------------------------------------------------------------------

/// The components of a Unix path, as `std::path::Path::components` lists
/// them: `"/"` for the root, `"."` for a leading current-directory marker,
/// then the named pieces. Repeated separators and interior `.` are dropped.
pub open spec fn components(p: Seq<char>) -> Seq<Seq<char>> {
    let pieces = split(p, '/');
    let named = pieces.filter(|x: Seq<char>| x.len() > 0 && x != "."@);
    if p.len() > 0 && p[0] == '/' {
        seq!["/"@] + named
    } else if pieces[0] == "."@ {
        seq!["."@] + named
    } else {
        named
    }
}

/// `p` lies at or below `base`, compared component by component (as
/// `std::path::Path::starts_with`).
pub open spec fn path_starts_with(p: Seq<char>, base: Seq<char>) -> bool {
    components(base).is_prefix_of(components(p))
}

/// The named pieces of a split path: non-empty and other than `.`.
pub open spec fn named(pieces: Seq<Seq<char>>) -> Seq<Seq<char>> {
    pieces.filter(|x: Seq<char>| x.len() > 0 && x != "."@)
}

/// Every piece of a split lacks the separator.
pub proof fn lemma_split_pieces_lack(s: Seq<char>, c: char)
    ensures
        forall|i: int| 0 <= i < split(s, c).len() ==> crate::text::no_char(#[trigger] split(s, c)[i], c),
    decreases s.len(),
{
    if s.len() > 0 {
        lemma_split_pieces_lack(s.drop_last(), c);
        lemma_split_len(s.drop_last(), c);
    }
}

/// A path that starts like `base` and whose named pieces extend those of
/// `base` lies below `base`.
proof fn lemma_components_extend(base: Seq<char>, p: Seq<char>, extra: Seq<Seq<char>>)
    requires
        base.len() > 0,
        p.len() > 0,
        p[0] == base[0],
        split(p, '/')[0] == split(base, '/')[0],
        named(split(p, '/')) == named(split(base, '/')) + extra,
    ensures
        path_starts_with(p, base),
{
    let nb = named(split(base, '/'));
    let np = named(split(p, '/'));
    assert(np.subrange(0, nb.len() as int) =~= nb);
    if base[0] == '/' {
        assert((seq!["/"@] + np).subrange(0, 1 + nb.len() as int) =~= seq!["/"@] + nb);
    } else if split(base, '/')[0] == "."@ {
        assert((seq!["."@] + np).subrange(0, 1 + nb.len() as int) =~= seq!["."@] + nb);
    }
}

/// Joining a name without `/` onto `base` gives a path below `base`.
pub proof fn lemma_join_below(base: Seq<char>, name: Seq<char>)
    requires
        crate::text::no_char(name, '/'),
    ensures
        path_starts_with(path_join(base, name), base),
{
    let f = |x: Seq<char>| x.len() > 0 && x != "."@;
    let p = path_join(base, name);
    if name.len() > 0 {
        assert(name[0] != '/');
    }
    if base.len() == 0 {
        assert(split(base, '/') =~= seq![Seq::<char>::empty()]);
        assert(split(base, '/').filter(f) =~= Seq::<Seq<char>>::empty()) by {
            reveal_with_fuel(vstd::seq::Seq::filter, 2);
            assert(seq![Seq::<char>::empty()].drop_last() =~= Seq::<Seq<char>>::empty());
        }
        assert(split(base, '/')[0].len() == 0);
        assert("."@.len() == 1) by {
            reveal_strlit(".");
        }
        assert(components(base) =~= Seq::<Seq<char>>::empty());
    } else if base.last() == '/' {
        let b = base.drop_last();
        assert(p =~= b + seq!['/'] + name);
        lemma_split_append(b, name, '/');
        lemma_split_len(b, '/');
        assert(split(base, '/') == split(b, '/').push(seq![]));
        split(b, '/').lemma_filter_push(seq![], f);
        split(b, '/').lemma_filter_push(name, f);
        let extra = if f(name) { seq![name] } else { Seq::<Seq<char>>::empty() };
        assert(named(split(p, '/')) =~= named(split(base, '/')) + extra);
        assert(split(p, '/')[0] == split(b, '/')[0]);
        lemma_components_extend(base, p, extra);
    } else {
        assert(p =~= base + seq!['/'] + name) by {
            reveal_strlit("/");
        }
        lemma_split_append(base, name, '/');
        lemma_split_len(base, '/');
        split(base, '/').lemma_filter_push(name, f);
        let extra = if f(name) { seq![name] } else { Seq::<Seq<char>>::empty() };
        assert(named(split(p, '/')) =~= named(split(base, '/')) + extra);
        lemma_components_extend(base, p, extra);
    }
}

/// Joining two paths that lack a character other than `/` gives a path
/// that lacks it too.
pub proof fn lemma_join_lacks(base: Seq<char>, name: Seq<char>, c: char)
    requires
        crate::text::no_char(base, c),
        crate::text::no_char(name, c),
        c != '/',
    ensures
        crate::text::no_char(path_join(base, name), c),
{
    reveal_strlit("/");
    let p = path_join(base, name);
    assert forall|k: int| 0 <= k < p.len() implies p[k] != c by {
        if !(name.len() > 0 && name[0] == '/') && !(base.len() == 0 || base.last() == '/') {
            if k < base.len() {
                assert(p[k] == base[k]);
            } else if k > base.len() {
                assert(p[k] == name[k - base.len() - 1]);
            }
        } else if !(name.len() > 0 && name[0] == '/') {
            if k < base.len() {
                assert(p[k] == base[k]);
            } else {
                assert(p[k] == name[k - base.len()]);
            }
        }
    }
}

/// Lying below is transitive.
pub proof fn lemma_below_transitive(a: Seq<char>, b: Seq<char>, c: Seq<char>)
    requires
        path_starts_with(a, b),
        path_starts_with(b, c),
    ensures
        path_starts_with(a, c),
{
    let ca = components(a);
    let cb = components(b);
    let cc = components(c);
    assert(ca.subrange(0, cc.len() as int) =~= cb.subrange(0, cc.len() as int));
}

/// The named components of a list of pieces: non-empty and other than `.`.
fn named_pieces(pieces: &Vec<String>) -> (r: Vec<String>)
    ensures
        r@.len() == crate::text::views(pieces@).filter(
            |x: Seq<char>| x.len() > 0 && x != "."@,
        ).len(),
        forall|i: int|
            0 <= i < r@.len() ==> #[trigger] r@[i]@ == crate::text::views(pieces@).filter(
                |x: Seq<char>| x.len() > 0 && x != "."@,
            )[i],
{
    let ghost ps = crate::text::views(pieces@);
    let ghost f = |x: Seq<char>| x.len() > 0 && x != "."@;
    let mut r: Vec<String> = Vec::new();
    let mut i: usize = 0;
    while i < pieces.len()
        invariant
            i <= pieces.len(),
            ps == crate::text::views(pieces@),
            f == (|x: Seq<char>| x.len() > 0 && x != "."@),
            r@.len() == ps.take(i as int).filter(f).len(),
            forall|k: int| 0 <= k < r@.len() ==> #[trigger] r@[k]@ == ps.take(i as int).filter(f)[k],
        decreases pieces.len() - i,
    {
        proof {
            assert(ps.take(i + 1) =~= ps.take(i as int).push(ps[i as int]));
            ps.take(i as int).lemma_filter_push(ps[i as int], f);
            reveal_strlit(".");
        }
        let keep = !pieces[i].as_str().is_empty() && !str_eq(pieces[i].as_str(), ".");
        if keep {
            r.push(pieces[i].clone());
        }
        i = i + 1;
    }
    assert(ps.take(pieces.len() as int) =~= ps);
    r
}

/// The components of `p`.
pub fn path_components(p: &str) -> (r: Vec<String>)
    ensures
        r@.len() == components(p@).len(),
        forall|i: int| 0 <= i < r@.len() ==> #[trigger] r@[i]@ == components(p@)[i],
{
    let pieces = split_char(p, '/');
    proof {
        lemma_split_len(p@, '/');
        assert(crate::text::views(pieces@) =~= split(p@, '/'));
    }
    let named = named_pieces(&pieces);
    let v = chars_of(p);
    let mut r: Vec<String> = Vec::new();
    if v.len() > 0 && v[0] == '/' {
        r.push(owned("/"));
    } else if str_eq(pieces[0].as_str(), ".") {
        r.push(owned("."));
    }
    let ghost head = r@;
    let mut i: usize = 0;
    while i < named.len()
        invariant
            i <= named.len(),
            r@ == head + named@.take(i as int),
        decreases named.len() - i,
    {
        r.push(named[i].clone());
        assert(named@.take(i + 1) =~= named@.take(i as int).push(named@[i as int]));
        i = i + 1;
    }
    proof {
        assert(named@.take(named.len() as int) =~= named@);
        reveal_strlit("/");
        reveal_strlit(".");
        let nm = split(p@, '/').filter(|x: Seq<char>| x.len() > 0 && x != "."@);
        assert forall|k: int| 0 <= k < r@.len() implies #[trigger] r@[k]@ == components(p@)[k] by {
            if k >= head.len() {
                assert(r@[k] == named@[k - head.len()]);
            }
        }
    }
    r
}

/// Whether `p` lies at or below `base`, component by component.
pub fn starts_with_path(p: &str, base: &str) -> (r: bool)
    ensures
        r == path_starts_with(p@, base@),
{
    let cp = path_components(p);
    let cb = path_components(base);
    if cb.len() > cp.len() {
        return false;
    }
    let mut i: usize = 0;
    while i < cb.len()
        invariant
            i <= cb.len() <= cp.len(),
            cp@.len() == components(p@).len(),
            cb@.len() == components(base@).len(),
            forall|k: int| 0 <= k < cp@.len() ==> #[trigger] cp@[k]@ == components(p@)[k],
            forall|k: int| 0 <= k < cb@.len() ==> #[trigger] cb@[k]@ == components(base@)[k],
            forall|k: int| 0 <= k < i ==> components(base@)[k] == components(p@)[k],
        decreases cb.len() - i,
    {
        if !str_eq(cp[i].as_str(), cb[i].as_str()) {
            assert(cp@[i as int]@ == components(p@)[i as int]);
            assert(cb@[i as int]@ == components(base@)[i as int]);
            return false;
        }
        i = i + 1;
    }
    true
}

// ---------------------------------------------------------------------------
// Joining
// ---------------------------------------------------------------------------

/// `base.join(name)` for Unix paths (as `std::path::Path::join`): an
/// absolute `name` replaces `base`; otherwise a `/` is put between them
/// unless `base` is empty or already ends with one.
pub open spec fn path_join(base: Seq<char>, name: Seq<char>) -> Seq<char> {
    if name.len() > 0 && name[0] == '/' {
        name
    } else if base.len() == 0 || base.last() == '/' {
        base + name
    } else {
        base + "/"@ + name
    }
}

/// `base` joined with `name`.
pub fn join(base: &str, name: &str) -> (r: String)
    ensures
        r@ == path_join(base@, name@),
{
    let vb = chars_of(base);
    let vn = chars_of(name);
    if vn.len() > 0 && vn[0] == '/' {
        return owned(name);
    }
    let mut out = owned(base);
    if !(vb.len() == 0 || vb[vb.len() - 1] == '/') {
        push_char(&mut out, '/');
        proof {
            reveal_strlit("/");
        }
    }
    append_str(&mut out, name);
    out
}

} // verus!
