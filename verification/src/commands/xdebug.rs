//! `pvm xdebug on|off`: which version to change and how its `php.ini` is
//! rewritten.
use crate::fs::{
    installed, is_version_installed, is_white, local_resolution, resolve_local_version, trim,
    trim_end, trim_start, trim_str, ResolveError, VersionDir,
};
use crate::paths::{join, path_join, split, split_char};
use crate::text::{append_str, chars_of, owned, seq_starts_with, starts_with, str_eq, views};
use vstd::prelude::*;

verus! {

/// Toggle Xdebug on or off for a specific PHP version.
#[derive(Clone, Debug, PartialEq)]
pub struct Xdebug {
    /// Mode: "on" or "off".
    pub mode: String,
    /// Target PHP version (minor or patch). Defaults to the active version.
    pub version: Option<String>,
}

/// Whether Xdebug is to be loaded.
#[derive(Clone, Copy, Debug, PartialEq, Eq, Structural)]
pub enum XdebugMode {
    On,
    Off,
}

/// Why `pvm xdebug` cannot proceed.
#[derive(Clone, Debug, PartialEq)]
pub enum XdebugError {
    /// The mode is neither `on` nor `off` (as given).
    InvalidMode(String),
    /// The requested version does not resolve locally.
    Resolve(ResolveError),
    /// No version was named, none is active and none is installed.
    NothingInstalled,
    /// The target version is not installed.
    NotInstalled(String),
    /// The version has no `xdebug.so`: version, the path looked at.
    ExtensionMissing(String, String),
}

impl XdebugError {
    /// The message shown for this error.
    pub fn message(&self) -> (r: String)
        ensures
            r@ == match self {
                XdebugError::InvalidMode(m) => "Invalid mode '"@ + m@ + "'. Expected 'on' or 'off'."@,
                XdebugError::Resolve(e) => e.message_text(),
                XdebugError::NothingInstalled => "No PHP versions are currently installed."@,
                XdebugError::NotInstalled(v) => "PHP "@ + v@ + " is not installed. Run 'pvm install "@ + v@
                    + "' first."@,
                XdebugError::ExtensionMissing(v, p) => "xdebug shared extension not found for PHP "@ + v@
                    + " at "@ + p@ + ". Ensure your build includes xdebug."@,
            },
    {
        match self {
            XdebugError::InvalidMode(m) => {
                let mut out = owned("Invalid mode '");
                append_str(&mut out, m.as_str());
                append_str(&mut out, "'. Expected 'on' or 'off'.");
                out
            },
            XdebugError::Resolve(e) => e.message(),
            XdebugError::NothingInstalled => owned("No PHP versions are currently installed."),
            XdebugError::NotInstalled(v) => {
                let mut out = owned("PHP ");
                append_str(&mut out, v.as_str());
                append_str(&mut out, " is not installed. Run 'pvm install ");
                append_str(&mut out, v.as_str());
                append_str(&mut out, "' first.");
                out
            },
            XdebugError::ExtensionMissing(v, p) => {
                let mut out = owned("xdebug shared extension not found for PHP ");
                append_str(&mut out, v.as_str());
                append_str(&mut out, " at ");
                append_str(&mut out, p.as_str());
                append_str(&mut out, ". Ensure your build includes xdebug.");
                out
            },
        }
    }
}

// ---------------------------------------------------------------------------
// Case-insensitive matching
// ---------------------------------------------------------------------------

/// `c` lowercases to `w`, where only ASCII capitals are taken to change case.
/// The words matched here are `on`, `off` and `xdebug`, and no character but
/// an ASCII capital lowercases to any of their letters (o, n, f, x, d, e, b,
/// u, g), so for them this agrees with full Unicode lowercasing.
pub open spec fn lowers_to(c: char, w: char) -> bool {
    c == w || ('A' <= c <= 'Z' && (c as u32) + 32 == (w as u32))
}

/// `s` lowercases to `word` (`word` being lowercase ASCII).
pub open spec fn equals_ignoring_case(s: Seq<char>, word: Seq<char>) -> bool {
    s.len() == word.len() && forall|k: int| 0 <= k < s.len() ==> lowers_to(#[trigger] s[k], word[k])
}

/// `word` occurs in `s` at position `i`, ignoring the case of `s`.
pub open spec fn occurs_at(s: Seq<char>, word: Seq<char>, i: int) -> bool {
    0 <= i && i + word.len() <= s.len() && forall|k: int| 0 <= k < word.len() ==> lowers_to(#[trigger] s[i + k], word[k])
}

/// The lowercased `s` contains `word`.
pub open spec fn contains_ignoring_case(s: Seq<char>, word: Seq<char>) -> bool {
    exists|i: int| occurs_at(s, word, i)
}

/// Whether `c` lowercases to `w`.
fn char_lowers_to(c: char, w: char) -> (r: bool)
    ensures
        r == lowers_to(c, w),
{
    c == w || ('A' <= c && c <= 'Z' && (c as u32) + 32 == (w as u32))
}

/// Whether `s` lowercases to `word`.
fn str_equals_ignoring_case(s: &str, word: &str) -> (r: bool)
    ensures
        r == equals_ignoring_case(s@, word@),
{
    let a = chars_of(s);
    let b = chars_of(word);
    if a.len() != b.len() {
        return false;
    }
    let mut k: usize = 0;
    while k < a.len()
        invariant
            a@ == s@,
            b@ == word@,
            a.len() == b.len(),
            k <= a.len(),
            forall|j: int| 0 <= j < k ==> lowers_to(#[trigger] a@[j], b@[j]),
        decreases a.len() - k,
    {
        if !char_lowers_to(a[k], b[k]) {
            return false;
        }
        k = k + 1;
    }
    true
}

/// Whether the lowercased `s` contains `word`.
fn str_contains_ignoring_case(s: &str, word: &str) -> (r: bool)
    ensures
        r == contains_ignoring_case(s@, word@),
{
    let a = chars_of(s);
    let b = chars_of(word);
    if b.len() > a.len() {
        proof {
            assert forall|i: int| !occurs_at(s@, word@, i) by {}
        }
        return false;
    }
    let mut i: usize = 0;
    while i <= a.len() - b.len()
        invariant
            a@ == s@,
            b@ == word@,
            b.len() <= a.len(),
            i <= a.len() - b.len() + 1,
            forall|j: int| 0 <= j < i ==> !occurs_at(s@, word@, j),
        decreases a.len() - i,
    {
        let mut k: usize = 0;
        let mut all = true;
        while k < b.len()
            invariant
                a@ == s@,
                b@ == word@,
                i + b.len() <= a.len(),
                k <= b.len(),
                all == forall|j: int| 0 <= j < k ==> lowers_to(#[trigger] a@[i + j], b@[j]),
            decreases b.len() - k,
        {
            let ok = char_lowers_to(a[i + k], b[k]);
            proof {
                if !ok {
                    assert(!lowers_to(a@[i + k as int], b@[k as int]));
                }
            }
            all = all && ok;
            k = k + 1;
        }
        if all {
            assert(occurs_at(s@, word@, i as int));
            return true;
        }
        i = i + 1;
    }
    proof {
        assert forall|j: int| !occurs_at(s@, word@, j) by {
            if j >= i {
                assert(j + word@.len() > s@.len());
            }
        }
    }
    false
}

/// The mode named by `mode`, case-insensitively.
pub fn parse_mode(mode: &str) -> (r: Result<XdebugMode, XdebugError>)
    ensures
        equals_ignoring_case(mode@, "on"@) ==> r == Ok::<XdebugMode, XdebugError>(XdebugMode::On),
        equals_ignoring_case(mode@, "off"@) ==> r == Ok::<XdebugMode, XdebugError>(XdebugMode::Off),
        !equals_ignoring_case(mode@, "on"@) && !equals_ignoring_case(mode@, "off"@) ==> (r matches Err(
            XdebugError::InvalidMode(m),
        ) && m@ == mode@),
{
    proof {
        reveal_strlit("on");
        reveal_strlit("off");
    }
    if str_equals_ignoring_case(mode, "on") {
        Ok(XdebugMode::On)
    } else if str_equals_ignoring_case(mode, "off") {
        Ok(XdebugMode::Off)
    } else {
        Err(XdebugError::InvalidMode(owned(mode)))
    }
}

// ---------------------------------------------------------------------------
// The target version
// ---------------------------------------------------------------------------

/// The version to change: the requested one resolved among the installed
/// versions (`installed`, as `list_installed_versions` gives them), else the
/// active one, else (on the system PHP) the newest installed; it must be
/// installed (`dirs`: the entries of the versions directory).
pub fn xdebug_target(installed_list: &[String], dirs: &[VersionDir], requested: Option<&str>, current: &str) -> (r:
    Result<String, XdebugError>)
    ensures
        ({
            let names = views(installed_list@);
            let target = match requested {
                Some(v) => local_resolution(names, v@),
                None => if current@ != "system"@ {
                    Some(current@)
                } else if names.len() == 0 {
                    None::<Seq<char>>
                } else {
                    Some(names.last())
                },
            };
            match target {
                Some(t) => if installed(dirs@, t) {
                    (r matches Ok(x) && x@ == t)
                } else {
                    (r matches Err(XdebugError::NotInstalled(x)) && x@ == t)
                },
                None => match requested {
                    Some(v) => if v@ == "latest"@ {
                        r == Err::<String, XdebugError>(XdebugError::Resolve(ResolveError::NothingInstalled))
                    } else {
                        (r matches Err(XdebugError::Resolve(ResolveError::NotInstalled(x))) && x@ == v@)
                    },
                    None => r == Err::<String, XdebugError>(XdebugError::NothingInstalled),
                },
            }
        }),
{
    let target = match requested {
        Some(v) => match resolve_local_version(installed_list, v) {
            Ok(t) => t,
            Err(e) => return Err(XdebugError::Resolve(e)),
        },
        None => {
            if !str_eq(current, "system") {
                owned(current)
            } else if installed_list.len() == 0 {
                return Err(XdebugError::NothingInstalled);
            } else {
                installed_list[installed_list.len() - 1].clone()
            }
        },
    };
    if is_version_installed(dirs, target.as_str()) {
        Ok(target)
    } else {
        Err(XdebugError::NotInstalled(target))
    }
}

/// Enabling needs the shared extension: refuse when `xdebug.so` (at
/// `so_path`) is missing; disabling needs nothing.
pub fn check_extension(mode: XdebugMode, so_exists: bool, version: &str, so_path: &str) -> (r: Result<
    (),
    XdebugError,
>)
    ensures
        mode == XdebugMode::On && !so_exists ==> (r matches Err(XdebugError::ExtensionMissing(v, p))
            && v@ == version@ && p@ == so_path@),
        !(mode == XdebugMode::On && !so_exists) ==> r is Ok,
{
    if mode == XdebugMode::On && !so_exists {
        Err(XdebugError::ExtensionMissing(owned(version), owned(so_path)))
    } else {
        Ok(())
    }
}

/// `<bin_dir>/ext/xdebug.so`.
pub fn xdebug_so_path(bin_dir: &str) -> (r: String)
    ensures
        r@ == path_join(path_join(bin_dir@, "ext"@), "xdebug.so"@),
{
    let ext = join(bin_dir, "ext");
    join(ext.as_str(), "xdebug.so")
}

/// `zend_extension="<so_path>"`.
pub open spec fn zend_line(so_path: Seq<char>) -> Seq<char> {
    "zend_extension=\""@ + so_path + "\""@
}

/// The line that loads the extension at `so_path`.
pub fn xdebug_line(so_path: &str) -> (r: String)
    ensures
        r@ == zend_line(so_path@),
{
    let mut out = owned("zend_extension=\"");
    append_str(&mut out, so_path);
    append_str(&mut out, "\"");
    out
}

// ---------------------------------------------------------------------------
// php.ini
// ---------------------------------------------------------------------------

/// What a `php.ini` that pvm creates, or empties, holds.
pub open spec fn ini_header() -> Seq<char> {
    "; php.ini managed by pvm\n"@
}

/// `l` without one trailing carriage return.
pub open spec fn strip_cr(l: Seq<char>) -> Seq<char> {
    if l.len() > 0 && l.last() == '\r' {
        l.drop_last()
    } else {
        l
    }
}

/// The lines of `s`, as `str::lines` gives them: the pieces between line
/// feeds, a carriage return before a line feed dropped, and no empty piece
/// after a final line feed.
pub open spec fn ini_lines(s: Seq<char>) -> Seq<Seq<char>> {
    let p = split(s, '\n');
    let ended = p.drop_last().map_values(|l: Seq<char>| strip_cr(l));
    if p.last().len() == 0 {
        ended
    } else {
        ended.push(p.last())
    }
}

/// A line that loads Xdebug: after trimming it starts with
/// `zend_extension` and mentions `xdebug` in any case.
pub open spec fn is_xdebug_line(l: Seq<char>) -> bool {
    seq_starts_with(trim(l), "zend_extension"@) && contains_ignoring_case(trim(l), "xdebug"@)
}

/// Each line followed by a line feed.
pub open spec fn lines_text(ls: Seq<Seq<char>>) -> Seq<char>
    decreases ls.len(),
{
    if ls.len() == 0 {
        seq![]
    } else {
        lines_text(ls.drop_last()) + ls.last() + "\n"@
    }
}

/// The file holding `ls`: the lines, or the header when there are none.
pub open spec fn render_ini(ls: Seq<Seq<char>>) -> Seq<char> {
    if ls.len() == 0 {
        ini_header()
    } else {
        lines_text(ls)
    }
}

/// The lines of `contents` that do not load Xdebug.
pub open spec fn kept_lines(contents: Seq<char>) -> Seq<Seq<char>> {
    ini_lines(contents).filter(|l: Seq<char>| !is_xdebug_line(l))
}

/// The rewritten `php.ini`: every Xdebug line dropped, and for `On` one
/// clean `line` appended.
pub open spec fn edited_ini(contents: Seq<char>, mode: XdebugMode, line: Seq<char>) -> Seq<char> {
    match mode {
        XdebugMode::On => render_ini(kept_lines(contents).push(line)),
        XdebugMode::Off => render_ini(kept_lines(contents)),
    }
}

/// Whether `l` loads Xdebug.
pub fn is_xdebug_line_str(l: &str) -> (r: bool)
    ensures
        r == is_xdebug_line(l@),
{
    let t = trim_str(l);
    starts_with(t.as_str(), "zend_extension") && str_contains_ignoring_case(t.as_str(), "xdebug")
}

/// The lines of `s`.
pub fn lines_of(s: &str) -> (r: Vec<String>)
    ensures
        views(r@) == ini_lines(s@),
{
    let pieces = split_char(s, '\n');
    let ghost p = split(s@, '\n');
    proof {
        crate::paths::lemma_split_len(s@, '\n');
        assert(views(pieces@) =~= p);
    }
    let n = pieces.len();
    let mut r: Vec<String> = Vec::new();
    let mut i: usize = 0;
    while i + 1 < n
        invariant
            n == pieces@.len(),
            n >= 1,
            views(pieces@) == p,
            i + 1 <= n,
            views(r@) == p.drop_last().take(i as int).map_values(|l: Seq<char>| strip_cr(l)),
        decreases n - i,
    {
        let v = chars_of(pieces[i].as_str());
        let line = if v.len() > 0 && v[v.len() - 1] == '\r' {
            crate::text::string_of_range(&v, 0, v.len() - 1)
        } else {
            pieces[i].clone()
        };
        proof {
            assert(p[i as int] == pieces@[i as int]@);
            if v@.len() > 0 && v@.last() == '\r' {
                assert(v@.subrange(0, v@.len() - 1) =~= v@.drop_last());
            }
            assert(line@ == strip_cr(p.drop_last()[i as int]));
        }
        let ghost before = r@;
        r.push(line);
        proof {
            assert(p.drop_last().take(i + 1) =~= p.drop_last().take(i as int).push(p.drop_last()[i as int]));
            assert(views(r@) =~= views(before).push(line@));
            assert(p.drop_last().take(i + 1).map_values(|l: Seq<char>| strip_cr(l)) =~= p.drop_last().take(
                i as int,
            ).map_values(|l: Seq<char>| strip_cr(l)).push(strip_cr(p.drop_last()[i as int])));
        }
        i = i + 1;
    }
    proof {
        assert(p.drop_last().take(i as int) =~= p.drop_last());
        assert(p.last() == pieces@[n - 1]@);
    }
    if !pieces[n - 1].as_str().is_empty() {
        let ghost before = r@;
        r.push(pieces[n - 1].clone());
        assert(views(r@) =~= views(before).push(p.last()));
    }
    r
}

/// The text of the file holding `ls`.
pub fn render_ini_text(ls: &[String]) -> (r: String)
    ensures
        r@ == render_ini(views(ls@)),
{
    if ls.len() == 0 {
        return owned("; php.ini managed by pvm\n");
    }
    let mut out = String::new();
    let mut i: usize = 0;
    while i < ls.len()
        invariant
            i <= ls@.len(),
            out@ == lines_text(views(ls@).take(i as int)),
        decreases ls.len() - i,
    {
        proof {
            let t = views(ls@).take(i + 1);
            assert(t.drop_last() =~= views(ls@).take(i as int));
            assert(t.last() == ls@[i as int]@);
        }
        append_str(&mut out, ls[i].as_str());
        append_str(&mut out, "\n");
        i = i + 1;
    }
    assert(views(ls@).take(ls@.len() as int) =~= views(ls@));
    out
}

/// Rewrite `php.ini` (`contents`) for `mode`, loading the extension with
/// `line`; also says whether any Xdebug line was dropped.
pub fn edit_ini(contents: &str, mode: XdebugMode, line: &str) -> (r: (String, bool))
    ensures
        r.0@ == edited_ini(contents@, mode, line@),
        r.1 == (kept_lines(contents@).len() < ini_lines(contents@).len()),
{
    let lines = lines_of(contents);
    let ghost ls = ini_lines(contents@);
    let ghost f = |l: Seq<char>| !is_xdebug_line(l);
    let mut kept: Vec<String> = Vec::new();
    let mut i: usize = 0;
    while i < lines.len()
        invariant
            views(lines@) == ls,
            ls == ini_lines(contents@),
            f == (|l: Seq<char>| !is_xdebug_line(l)),
            i <= lines@.len(),
            views(kept@) == ls.take(i as int).filter(f),
        decreases lines.len() - i,
    {
        proof {
            assert(ls.take(i + 1) =~= ls.take(i as int).push(ls[i as int]));
            ls.take(i as int).lemma_filter_push(ls[i as int], f);
            assert(ls[i as int] == lines@[i as int]@);
        }
        if !is_xdebug_line_str(lines[i].as_str()) {
            let ghost before = kept@;
            kept.push(lines[i].clone());
            assert(views(kept@) =~= views(before).push(lines@[i as int]@));
        }
        i = i + 1;
    }
    proof {
        assert(ls.take(lines@.len() as int) =~= ls);
        ls.lemma_filter_len(f);
    }
    let removed = kept.len() < lines.len();
    match mode {
        XdebugMode::On => {
            let ghost before = kept@;
            kept.push(owned(line));
            assert(views(kept@) =~= views(before).push(line@));
        },
        XdebugMode::Off => {},
    }
    (render_ini_text(kept.as_slice()), removed)
}

} // verus!

verus! {

// ---------------------------------------------------------------------------
// What a rewrite guarantees
// ---------------------------------------------------------------------------

/// `l` ends with a carriage return.
pub open spec fn ends_with_cr(l: Seq<char>) -> bool {
    l.len() > 0 && l.last() == '\r'
}

/// The first line of pvm's own header.
spec fn header_line() -> Seq<char> {
    "; php.ini managed by pvm"@
}

/// Splitting the text of lines without line feeds gives the lines and one
/// empty piece after the last line feed.
proof fn lemma_split_lines_text(ls: Seq<Seq<char>>)
    requires
        forall|i: int| 0 <= i < ls.len() ==> crate::text::no_char(#[trigger] ls[i], '\n'),
    ensures
        split(lines_text(ls), '\n') == ls.push(seq![]),
    decreases ls.len(),
{
    reveal_strlit("\n");
    if ls.len() == 0 {
        assert(lines_text(ls) =~= Seq::<char>::empty());
        assert(ls.push(seq![]) =~= seq![Seq::<char>::empty()]);
    } else {
        let init = ls.drop_last();
        let x = ls.last();
        assert forall|i: int| 0 <= i < init.len() implies crate::text::no_char(#[trigger] init[i], '\n') by {
            assert(init[i] == ls[i]);
        }
        lemma_split_lines_text(init);
        assert(crate::text::no_char(ls[ls.len() - 1], '\n'));
        let t = lines_text(ls);
        assert(t =~= (lines_text(init) + x) + seq!['\n']);
        assert(t.drop_last() =~= lines_text(init) + x);
        if init.len() == 0 {
            assert(lines_text(init) + x =~= x);
            crate::paths::lemma_split_plain(x, '\n');
        } else {
            let c = lines_text(init.drop_last()) + init.last();
            assert(lines_text(init) =~= c + seq!['\n']);
            assert(lines_text(init) + x =~= c + seq!['\n'] + x);
            crate::paths::lemma_split_append(c, x, '\n');
            assert(lines_text(init).drop_last() =~= c);
            assert(split(lines_text(init), '\n') == split(c, '\n').push(seq![]));
            assert(split(c, '\n').push(seq![]).drop_last() =~= split(c, '\n'));
            assert(init.push(seq![]).drop_last() =~= init);
            assert(split(c, '\n') =~= init);
        }
        assert(init.push(x) =~= ls);
    }
}

/// Reading back the text of lines without line feeds gives the lines, each
/// without a final carriage return.
proof fn lemma_lines_round_trip(ls: Seq<Seq<char>>)
    requires
        forall|i: int| 0 <= i < ls.len() ==> crate::text::no_char(#[trigger] ls[i], '\n'),
    ensures
        ini_lines(lines_text(ls)) == ls.map_values(|l: Seq<char>| strip_cr(l)),
{
    lemma_split_lines_text(ls);
    assert(ls.push(seq![]).drop_last() =~= ls);
}

/// The lines of pvm's header.
proof fn lemma_header_lines()
    ensures
        ini_header() == lines_text(seq![header_line()]),
        ini_lines(ini_header()) == seq![header_line()],
        !is_xdebug_line(header_line()),
        !ends_with_cr(header_line()),
{
    reveal_strlit("; php.ini managed by pvm\n");
    reveal_strlit("; php.ini managed by pvm");
    reveal_strlit("\n");
    reveal_strlit("zend_extension");
    let h = header_line();
    assert(seq![h].drop_last() =~= Seq::<Seq<char>>::empty());
    assert(lines_text(Seq::<Seq<char>>::empty()) =~= Seq::<char>::empty());
    assert(lines_text(seq![h]) == lines_text(Seq::<Seq<char>>::empty()) + h + "\n"@);
    assert(ini_header() =~= h + "\n"@);
    assert(ini_header() =~= lines_text(seq![h]));
    assert(crate::text::no_char(h, '\n'));
    lemma_lines_round_trip(seq![h]);
    assert(seq![h].map_values(|l: Seq<char>| strip_cr(l)) =~= seq![h]);
    assert(!is_white(h[0]));
    assert(trim_start(h) == h);
    assert(!is_white(h.last()));
    assert(trim(h) == h);
    assert(h[0] != "zend_extension"@[0]);
}

/// Lines of a file hold no line feed.
proof fn lemma_ini_lines_plain(s: Seq<char>)
    ensures
        forall|i: int| 0 <= i < ini_lines(s).len() ==> crate::text::no_char(#[trigger] ini_lines(s)[i], '\n'),
{
    crate::paths::lemma_split_pieces_lack(s, '\n');
    crate::paths::lemma_split_len(s, '\n');
    let p = split(s, '\n');
    assert forall|i: int| 0 <= i < ini_lines(s).len() implies crate::text::no_char(#[trigger] ini_lines(s)[i], '\n') by {
        if i < p.len() - 1 {
            assert(ini_lines(s)[i] == strip_cr(p[i]));
            assert(crate::text::no_char(p[i], '\n'));
        } else {
            assert(ini_lines(s)[i] == p[p.len() - 1]);
        }
    }
}

/// Leading whitespace of `s` without its last (white) character.
proof fn lemma_trim_start_drop_last(s: Seq<char>)
    requires
        s.len() > 0,
        is_white(s.last()),
    ensures
        trim_start(s.drop_last()) == if trim_start(s).len() == 0 {
            Seq::<char>::empty()
        } else {
            trim_start(s).drop_last()
        },
        trim_start(s).len() > 0 ==> trim_start(s).last() == s.last(),
    decreases s.len(),
{
    if s.len() == 1 {
        assert(s.drop_last() =~= Seq::<char>::empty());
        assert(s.drop_first() =~= Seq::<char>::empty());
    } else if is_white(s[0]) {
        assert(s.drop_last().drop_first() =~= s.drop_first().drop_last());
        assert(s.drop_first().last() == s.last());
        lemma_trim_start_drop_last(s.drop_first());
    }
}

/// A final carriage return does not change what a line trims to.
proof fn lemma_trim_strip_cr(l: Seq<char>)
    ensures
        trim(strip_cr(l)) == trim(l),
{
    if ends_with_cr(l) {
        assert(is_white('\r'));
        lemma_trim_start_drop_last(l);
        let t = trim_start(l);
        if t.len() > 0 {
            assert(is_white(t.last()));
        }
    }
}

/// Whether a line loads Xdebug does not depend on a final carriage return.
proof fn lemma_xdebug_strip_cr(l: Seq<char>)
    ensures
        is_xdebug_line(strip_cr(l)) == is_xdebug_line(l),
{
    lemma_trim_strip_cr(l);
}

/// The lines of a rewritten file, read back.
proof fn lemma_edited_lines(contents: Seq<char>, mode: XdebugMode, line: Seq<char>)
    requires
        crate::text::no_char(line, '\n'),
    ensures
        ({
            let body = match mode {
                XdebugMode::On => kept_lines(contents).push(line),
                XdebugMode::Off => kept_lines(contents),
            };
            ini_lines(edited_ini(contents, mode, line)) == if body.len() == 0 {
                seq![header_line()]
            } else {
                body.map_values(|l: Seq<char>| strip_cr(l))
            }
        }),
{
    let body = match mode {
        XdebugMode::On => kept_lines(contents).push(line),
        XdebugMode::Off => kept_lines(contents),
    };
    let f = |l: Seq<char>| !is_xdebug_line(l);
    lemma_ini_lines_plain(contents);
    let all = ini_lines(contents);
    assert forall|i: int| 0 <= i < body.len() implies crate::text::no_char(#[trigger] body[i], '\n') by {
        if i < kept_lines(contents).len() {
            assert(kept_lines(contents).contains(kept_lines(contents)[i]));
            all.lemma_filter_contains_rev(f, kept_lines(contents)[i]);
            let j = choose|j: int| 0 <= j < all.len() && all[j] == kept_lines(contents)[i];
            assert(body[i] == kept_lines(contents)[i]);
        }
    }
    lemma_header_lines();
    if body.len() > 0 {
        lemma_lines_round_trip(body);
    }
}

/// Disabling leaves no line that loads Xdebug.
pub proof fn law_xdebug_off_clears(contents: Seq<char>, line: Seq<char>)
    ensures
        forall|i: int|
            0 <= i < ini_lines(edited_ini(contents, XdebugMode::Off, line)).len() ==> !is_xdebug_line(
                #[trigger] ini_lines(edited_ini(contents, XdebugMode::Off, line))[i],
            ),
{
    let f = |l: Seq<char>| !is_xdebug_line(l);
    let kept = kept_lines(contents);
    lemma_edited_lines(contents, XdebugMode::Off, seq![]);
    lemma_header_lines();
    assert(edited_ini(contents, XdebugMode::Off, line) == edited_ini(contents, XdebugMode::Off, seq![]));
    assert forall|i: int| 0 <= i < ini_lines(edited_ini(contents, XdebugMode::Off, line)).len() implies !is_xdebug_line(
        #[trigger] ini_lines(edited_ini(contents, XdebugMode::Off, line))[i],
    ) by {
        if kept.len() > 0 {
            ini_lines(contents).lemma_filter_pred(f, i);
            lemma_xdebug_strip_cr(kept[i]);
        }
    }
}

/// `zend_extension="<so_path>"` loads Xdebug when the path names it, and
/// is a plain line when the path is.
proof fn lemma_zend_line(so_path: Seq<char>)
    requires
        contains_ignoring_case(so_path, "xdebug"@),
        crate::text::no_char(so_path, '\n'),
    ensures
        is_xdebug_line(zend_line(so_path)),
        crate::text::no_char(zend_line(so_path), '\n'),
        !ends_with_cr(zend_line(so_path)),
        strip_cr(zend_line(so_path)) == zend_line(so_path),
{
    reveal_strlit("zend_extension=\"");
    reveal_strlit("\"");
    reveal_strlit("zend_extension");
    let x = zend_line(so_path);
    let pre = "zend_extension=\""@;
    assert(x.len() == pre.len() + so_path.len() + 1);
    assert(x[0] == 'z');
    assert(x.last() == '"');
    assert(trim_start(x) == x);
    assert(trim(x) == x);
    assert(x.subrange(0, 14) =~= "zend_extension"@);
    let i = choose|i: int| occurs_at(so_path, "xdebug"@, i);
    assert forall|k: int| 0 <= k < "xdebug"@.len() implies lowers_to(#[trigger] x[i + 16 + k], "xdebug"@[k]) by {
        assert(x[i + 16 + k] == so_path[i + k]);
    }
    assert(occurs_at(x, "xdebug"@, i + 16));
    assert forall|k: int| 0 <= k < x.len() implies x[k] != '\n' by {
        if 16 <= k < 16 + so_path.len() {
            assert(x[k] == so_path[k - 16]);
        }
    }
}

/// Enabling leaves exactly one line that loads Xdebug: the clean one.
pub proof fn law_xdebug_on_single_line(contents: Seq<char>, so_path: Seq<char>)
    requires
        contains_ignoring_case(so_path, "xdebug"@),
        crate::text::no_char(so_path, '\n'),
    ensures
        ini_lines(edited_ini(contents, XdebugMode::On, zend_line(so_path))).filter(
            |l: Seq<char>| is_xdebug_line(l),
        ) == seq![zend_line(so_path)],
{
    let x = zend_line(so_path);
    let f = |l: Seq<char>| !is_xdebug_line(l);
    let g = |l: Seq<char>| is_xdebug_line(l);
    let kept = kept_lines(contents);
    lemma_zend_line(so_path);
    lemma_edited_lines(contents, XdebugMode::On, x);
    let mk = kept.map_values(|l: Seq<char>| strip_cr(l));
    assert(kept.push(x).map_values(|l: Seq<char>| strip_cr(l)) =~= mk.push(x));
    assert forall|i: int| 0 <= i < mk.len() implies !g(#[trigger] mk[i]) by {
        ini_lines(contents).lemma_filter_pred(f, i);
        lemma_xdebug_strip_cr(kept[i]);
    }
    crate::text::lemma_filter_none(mk, g);
    mk.lemma_filter_push(x, g);
}

/// Rewriting a rewritten file again changes nothing, unless a kept line
/// ends with a carriage return (writing it back turns that into a line
/// ending that the next reading drops).
pub proof fn law_xdebug_edit_idempotent(contents: Seq<char>, mode: XdebugMode, so_path: Seq<char>)
    requires
        contains_ignoring_case(so_path, "xdebug"@),
        crate::text::no_char(so_path, '\n'),
        forall|i: int| 0 <= i < kept_lines(contents).len() ==> !ends_with_cr(#[trigger] kept_lines(contents)[i]),
    ensures
        edited_ini(edited_ini(contents, mode, zend_line(so_path)), mode, zend_line(so_path)) == edited_ini(
            contents,
            mode,
            zend_line(so_path),
        ),
{
    let x = zend_line(so_path);
    let f = |l: Seq<char>| !is_xdebug_line(l);
    let kept = kept_lines(contents);
    let once = edited_ini(contents, mode, x);
    lemma_zend_line(so_path);
    lemma_edited_lines(contents, mode, x);
    lemma_header_lines();
    assert forall|i: int| 0 <= i < kept.len() implies f(#[trigger] kept[i]) by {
        ini_lines(contents).lemma_filter_pred(f, i);
    }
    assert(kept.map_values(|l: Seq<char>| strip_cr(l)) =~= kept);
    match mode {
        XdebugMode::On => {
            let body = kept.push(x);
            assert(body.map_values(|l: Seq<char>| strip_cr(l)) =~= body);
            assert(ini_lines(once) == body);
            crate::text::lemma_filter_all(kept, f);
            kept.lemma_filter_push(x, f);
            assert(kept_lines(once) == kept);
        },
        XdebugMode::Off => {
            if kept.len() == 0 {
                assert(ini_lines(once) == seq![header_line()]);
                assert(seq![header_line()].drop_last() =~= Seq::<Seq<char>>::empty());
                assert(seq![header_line()].filter(f) =~= seq![header_line()]) by {
                    reveal_with_fuel(vstd::seq::Seq::filter, 2);
                }
                assert(render_ini(seq![header_line()]) == ini_header());
            } else {
                assert(ini_lines(once) == kept);
                crate::text::lemma_filter_all(kept, f);
            }
        },
    }
}

} // verus!
