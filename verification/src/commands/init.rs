//! `pvm init`: the `major.minor` lines offered for a new `.php-version`.
use crate::fs::{has_minor, minor_spec};
use crate::paths::split_char;
use crate::text::{append_str, opt_string, owned, views};
use vstd::prelude::*;

verus! {

/// Initialize a `.php-version` file in the current directory.
#[derive(Clone, Copy, Debug, PartialEq, Eq, Structural)]
pub struct Init;

/// Why `pvm init` cannot offer a choice.
#[derive(Clone, Copy, Debug, PartialEq, Eq, Structural)]
pub enum InitError {
    /// The whole flow is interactive and there is no terminal.
    NoTerminal,
    /// Neither installed nor remote versions are known.
    NoVersions,
}

impl InitError {
    /// The message shown for this error.
    pub fn message(&self) -> (r: String)
        ensures
            r@ == match self {
                InitError::NoTerminal => "pvm init requires a terminal; write .php-version yourself instead."@,
                InitError::NoVersions => "Could not retrieve PHP versions."@,
            },
    {
        match self {
            InitError::NoTerminal => owned("pvm init requires a terminal; write .php-version yourself instead."),
            InitError::NoVersions => owned("Could not retrieve PHP versions."),
        }
    }
}

/// The whole flow of `pvm init` is interactive: without a terminal it fails
/// early with a hint.
pub fn init_gate(is_tty: bool) -> (r: Result<(), InitError>)
    ensures
        is_tty ==> r is Ok,
        !is_tty ==> r == Err::<(), InitError>(InitError::NoTerminal),
{
    if is_tty {
        Ok(())
    } else {
        Err(InitError::NoTerminal)
    }
}

/// "8.4.18" -> "8.4"; None when there is no minor component.
pub fn major_minor(v: &str) -> (r: Option<String>)
    ensures
        opt_string(r) == minor_spec(v@),
{
    let parts = split_char(v, '.');
    if parts.len() >= 2 {
        let mut out = parts[0].clone();
        append_str(&mut out, ".");
        append_str(&mut out, parts[1].as_str());
        Some(out)
    } else {
        None
    }
}

/// The distinct minor lines of `names`, in the order they first appear
/// (names without one skipped).
pub open spec fn first_minors(names: Seq<Seq<char>>) -> Seq<Seq<char>>
    decreases names.len(),
{
    if names.len() == 0 {
        seq![]
    } else {
        let before = first_minors(names.drop_last());
        match minor_spec(names.last()) {
            Some(m) => if before.contains(m) {
                before
            } else {
                before.push(m)
            },
            None => before,
        }
    }
}

/// The lines offered by `pvm init`: those of the installed versions, newest
/// first, then those only the remote offers, newest first; each with
/// whether it is installed.
pub open spec fn init_options(installed: Seq<Seq<char>>, remote: Seq<Seq<char>>) -> Seq<(Seq<char>, bool)> {
    first_minors(installed.reverse() + remote.reverse()).map_values(
        |m: Seq<char>| (m, has_minor(installed, m)),
    )
}

/// The views of option pairs.
pub open spec fn option_views(v: Seq<(String, bool)>) -> Seq<(Seq<char>, bool)> {
    v.map_values(|e: (String, bool)| (e.0@, e.1))
}

/// A line is among the first minors of `p` exactly when some name of `p`
/// lies on it.
pub proof fn lemma_first_minors_contains(p: Seq<Seq<char>>, m: Seq<char>)
    ensures
        first_minors(p).contains(m) <==> exists|k: int| 0 <= k < p.len() && minor_spec(#[trigger] p[k]) == Some(m),
    decreases p.len(),
{
    if p.len() > 0 {
        let init = p.drop_last();
        let before = first_minors(init);
        lemma_first_minors_contains(init, m);
        let last = p.len() - 1;
        assert(p[last] == p.last());
        assert forall|k: int| 0 <= k < init.len() implies p[k] == #[trigger] init[k] by {}
        if first_minors(p).contains(m) {
            if before.contains(m) {
                let k = choose|k: int| 0 <= k < init.len() && minor_spec(#[trigger] init[k]) == Some(m);
                assert(minor_spec(p[k]) == Some(m));
            } else {
                let i = choose|i: int| 0 <= i < first_minors(p).len() && first_minors(p)[i] == m;
                assert(minor_spec(p[last]) == Some(m));
            }
        }
        if exists|k: int| 0 <= k < p.len() && minor_spec(#[trigger] p[k]) == Some(m) {
            let k = choose|k: int| 0 <= k < p.len() && minor_spec(#[trigger] p[k]) == Some(m);
            if k < last {
                assert(minor_spec(init[k]) == Some(m));
                assert(before.contains(m));
                match minor_spec(p.last()) {
                    Some(x) => {
                        if !before.contains(x) {
                            let i = choose|i: int| 0 <= i < before.len() && before[i] == m;
                            assert(before.push(x)[i] == m);
                        }
                    },
                    None => {},
                }
            } else {
                if !before.contains(m) {
                    assert(before.push(m)[before.len() as int] == m);
                }
            }
        }
    }
}

/// Add the line of `name` (when it has one) to `lines` and `out` unless it
/// is there already.
fn add_line(lines: &mut Vec<String>, out: &mut Vec<(String, bool)>, name: &str, installed_part: bool)
    ensures
        ({
            let m = crate::fs::minor_spec(name@);
            match m {
                Some(x) => if views(old(lines)@).contains(x) {
                    final(lines)@ == old(lines)@ && final(out)@ == old(out)@
                } else {
                    views(final(lines)@) == views(old(lines)@).push(x) && option_views(final(out)@)
                        == option_views(old(out)@).push((x, installed_part))
                },
                None => final(lines)@ == old(lines)@ && final(out)@ == old(out)@,
            }
        }),
{
    match major_minor(name) {
        Some(m) => {
            if !crate::text::contains_str(lines.as_slice(), m.as_str()) {
                let ghost lb = lines@;
                let ghost ob = out@;
                lines.push(m.clone());
                out.push((m, installed_part));
                assert(views(lines@) =~= views(lb).push(lines@.last()@));
                assert(option_views(out@) =~= option_views(ob).push((out@.last().0@, installed_part)));
            }
        },
        None => {},
    }
}

/// The lines to offer: those of the installed versions (`installed`, oldest
/// first), newest first and marked installed, then the lines only the
/// remote listing (`remote`, oldest first) offers, newest first.
pub fn build_init_options(installed: &[String], remote: &[(String, Vec<String>)]) -> (r: Vec<(String, bool)>)
    ensures
        option_views(r@) == init_options(views(installed@), crate::commands::install::listing_names(remote@)),
{
    let ghost inst = views(installed@);
    let ghost rem = crate::commands::install::listing_names(remote@);
    let ghost all = inst.reverse() + rem.reverse();
    let ghost pair = |m: Seq<char>| (m, has_minor(inst, m));
    let n = installed.len();
    let mut lines: Vec<String> = Vec::new();
    let mut out: Vec<(String, bool)> = Vec::new();
    let mut k: usize = n;
    while k > 0
        invariant
            n == installed@.len(),
            inst == views(installed@),
            all == inst.reverse() + rem.reverse(),
            pair == (|m: Seq<char>| (m, has_minor(inst, m))),
            k <= n,
            views(lines@) == first_minors(all.take(n - k)),
            option_views(out@) == views(lines@).map_values(pair),
        decreases k,
    {
        let ghost c = n - k;
        proof {
            assert(all[c] == inst[k - 1]);
            assert(installed@[k - 1]@ == inst[k - 1]);
            assert(all.take(c + 1) =~= all.take(c).push(all[c]));
            assert(all.take(c + 1).drop_last() =~= all.take(c));
        }
        let ghost lb = views(lines@);
        add_line(&mut lines, &mut out, installed[k - 1].as_str(), true);
        proof {
            match minor_spec(inst[k - 1]) {
                Some(x) => {
                    assert(has_minor(inst, x));
                    if !lb.contains(x) {
                        assert(views(lines@).map_values(pair) =~= lb.map_values(pair).push(pair(x)));
                    }
                },
                None => {},
            }
        }
        k = k - 1;
    }
    let rn = remote.len();
    let mut j: usize = rn;
    while j > 0
        invariant
            n == installed@.len(),
            rn == remote@.len(),
            rem.len() == rn,
            inst == views(installed@),
            rem == crate::commands::install::listing_names(remote@),
            all == inst.reverse() + rem.reverse(),
            pair == (|m: Seq<char>| (m, has_minor(inst, m))),
            j <= rn,
            views(lines@) == first_minors(all.take(n + rn - j)),
            option_views(out@) == views(lines@).map_values(pair),
        decreases j,
    {
        let ghost c = n + rn - j;
        proof {
            assert(all[c] == rem[j - 1]);
            assert(remote@[j - 1].0@ == rem[j - 1]);
            assert(all.take(c + 1) =~= all.take(c).push(all[c]));
            assert(all.take(c + 1).drop_last() =~= all.take(c));
        }
        let ghost lb = views(lines@);
        add_line(&mut lines, &mut out, remote[j - 1].0.as_str(), false);
        proof {
            match minor_spec(rem[j - 1]) {
                Some(x) => {
                    if !lb.contains(x) {
                        if has_minor(inst, x) {
                            let q = choose|q: int| 0 <= q < inst.len() && minor_spec(inst[q]) == Some(x);
                            assert(all.take(c)[n - 1 - q] == inst[q]);
                            lemma_first_minors_contains(all.take(c), x);
                        }
                        assert(views(lines@).map_values(pair) =~= lb.map_values(pair).push(pair(x)));
                    }
                },
                None => {},
            }
        }
        j = j - 1;
    }
    assert(all.take(n + rn) =~= all);
    out
}

} // verus!
