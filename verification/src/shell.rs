//! Shell-specific rendering of environment changes (Bash, Zsh, Fish).
//!
//! Every function here builds text that a shell evaluates; each contract
//! gives that text exactly, as a sequence of characters.
use crate::constants::{ENV_UPDATE_FILE, PVM_DIR_VAR};
use crate::text::{
    append_str, join, lemma_join_push, non_empty, owned, push_char, seq_ends_with, views,
};
use vstd::prelude::*;

verus! {

// ---------------------------------------------------------------------------
// Models
// ---------------------------------------------------------------------------

/// How one character is written inside a POSIX single-quoted word.
pub open spec fn posix_char(c: char) -> Seq<char> {
    if c == '\'' {
        seq!['\'', '\\', '\'', '\'']
    } else {
        seq![c]
    }
}

/// The characters of `s` escaped for a POSIX single-quoted word.
pub open spec fn posix_escape(s: Seq<char>) -> Seq<char>
    decreases s.len(),
{
    if s.len() == 0 {
        seq![]
    } else {
        posix_escape(s.drop_last()) + posix_char(s.last())
    }
}

/// `s` quoted for bash/zsh: wrapped in single quotes, each `'` written `'\''`.
pub open spec fn posix_quote(s: Seq<char>) -> Seq<char> {
    seq!['\''] + posix_escape(s) + seq!['\'']
}

/// How one character is written inside a fish single-quoted word.
pub open spec fn fish_char(c: char) -> Seq<char> {
    if c == '\\' {
        seq!['\\', '\\']
    } else if c == '\'' {
        seq!['\\', '\'']
    } else {
        seq![c]
    }
}

/// The characters of `s` escaped for a fish single-quoted word.
pub open spec fn fish_escape(s: Seq<char>) -> Seq<char>
    decreases s.len(),
{
    if s.len() == 0 {
        seq![]
    } else {
        fish_escape(s.drop_last()) + fish_char(s.last())
    }
}

/// `s` quoted for fish: wrapped in single quotes, `\` and `'` backslash-escaped.
pub open spec fn fish_quote(s: Seq<char>) -> Seq<char> {
    seq!['\''] + fish_escape(s) + seq!['\'']
}

/// The `:`-separated PATH value of `bin_dir` followed by `rest`, empty entries dropped.
pub open spec fn path_value(bin_dir: Seq<char>, rest: Seq<Seq<char>>) -> Seq<char> {
    join(non_empty(seq![bin_dir] + rest), ":"@)
}

/// The fish words for a list of PATH entries: each non-empty entry quoted, space-separated.
pub open spec fn fish_words(entries: Seq<Seq<char>>) -> Seq<char> {
    join(non_empty(entries).map_values(|p: Seq<char>| fish_quote(p)), " "@)
}

/// `export PATH='<bin_dir>:<rest...>'`.
pub open spec fn posix_path_text(bin_dir: Seq<char>, rest: Seq<Seq<char>>) -> Seq<char> {
    "export PATH="@ + posix_quote(path_value(bin_dir, rest))
}

/// `export <name>='<value>'`.
pub open spec fn posix_set_env_text(name: Seq<char>, value: Seq<char>) -> Seq<char> {
    "export "@ + name + "="@ + posix_quote(value)
}

/// Clearing the multishell marker and restoring `rest` as PATH, for bash/zsh.
pub open spec fn posix_deactivate_text(rest: Seq<Seq<char>>) -> Seq<char> {
    "export PVM_MULTISHELL_PATH=''\nexport PATH="@ + posix_quote(join(rest, ":"@))
}

/// `set -gx PATH '<bin_dir>' '<rest>'...`.
pub open spec fn fish_path_text(bin_dir: Seq<char>, rest: Seq<Seq<char>>) -> Seq<char> {
    "set -gx PATH "@ + fish_words(seq![bin_dir] + rest)
}

/// `set -gx <name> '<value>'`.
pub open spec fn fish_set_env_text(name: Seq<char>, value: Seq<char>) -> Seq<char> {
    "set -gx "@ + name + " "@ + fish_quote(value)
}

/// Clearing the multishell marker and restoring `rest` as PATH, for fish.
pub open spec fn fish_deactivate_text(rest: Seq<Seq<char>>) -> Seq<char> {
    "set -gx PVM_MULTISHELL_PATH ''\nset -gx PATH "@ + fish_words(rest)
}

/// The bash/zsh `pvm` wrapper function and PATH guard.
pub open spec fn posix_wrapper_text() -> Seq<char> {
    let d = PVM_DIR_VAR@;
    let f = ENV_UPDATE_FILE@;
    "\ncase \":$PATH:\" in\n  *\":${"@ + d + "}/bin:\"*) ;;\n  *) export PATH=\"${"@ + d
        + "}/bin:$PATH\" ;;\nesac\n\npvm() {\n  local command=$1\n  if [[ \"$command\" == \"env\" ]]; then\n    command pvm \"$@\"\n  else\n    if [[ -n \"${"@
        + d + "}\" && -d \"${"@ + d + "}\" ]]; then\n      local env_file=\"${"@ + d + "}/"@ + f
        + "_$$_${RANDOM}${RANDOM}_$(date +%s)\"\n      [[ -f \"$env_file\" ]] && command rm -f \"$env_file\" 2>/dev/null\n      PVM_ENV_UPDATE_PATH=\"$env_file\" command pvm \"$@\"\n      local exit_code=$?\n      if [[ -f \"$env_file\" ]]; then\n        eval \"$(cat \"$env_file\")\"\n        command rm -f \"$env_file\" 2>/dev/null\n      fi\n      return $exit_code\n    else\n      command pvm \"$@\"\n    fi\n  fi\n}\n"@
}

/// The fish `pvm` wrapper function and PATH guard.
pub open spec fn fish_wrapper_text() -> Seq<char> {
    let d = PVM_DIR_VAR@;
    let f = ENV_UPDATE_FILE@;
    "\nif not contains \"$"@ + d + "/bin\" $PATH\n    set -gx PATH \"$"@ + d
        + "/bin\" $PATH\nend\n\nfunction pvm\n    set command $argv[1]\n    if test \"$command\" = \"env\"\n        command pvm $argv\n    else\n        if test -n \"$"@
        + d + "\"; and test -d \"$"@ + d + "\"\n            set env_file \"$"@ + d + "/"@ + f
        + "_$fish_pid\"_(random)(random)_(date +%s)\n            if test -f \"$env_file\"\n                command rm -f \"$env_file\" &>/dev/null\n            end\n            PVM_ENV_UPDATE_PATH=\"$env_file\" command pvm $argv\n            set exit_code $status\n            if test -f \"$env_file\"\n                source \"$env_file\"\n                command rm -f \"$env_file\" &>/dev/null\n            end\n            return $exit_code\n        else\n            command pvm $argv\n        end\n    end\nend\n"@
}

/// The bash directory-change hook (run from PROMPT_COMMAND, skipped when PWD is unchanged).
pub open spec fn bash_cd_hook_text() -> Seq<char> {
    "\n_pvm_cd_hook() {\n  [[ \"$PWD\" == \"${__pvm_last_pwd-}\" ]] && return\n  __pvm_last_pwd=\"$PWD\"\n  if [[ -f .php-version ]]; then\n    pvm use --silent \"$(cat .php-version)\" || true\n  fi\n}\nif [[ -n \"$BASH_VERSION\" ]]; then\n  if [[ ! \"$PROMPT_COMMAND\" == *\"_pvm_cd_hook\"* ]]; then\n    PROMPT_COMMAND=\"_pvm_cd_hook; ${PROMPT_COMMAND:-}\"\n  fi\nfi\n"@
}

/// The zsh directory-change hook (a `chpwd` hook).
pub open spec fn zsh_cd_hook_text() -> Seq<char> {
    "\n_pvm_cd_hook() {\n  if [[ -f .php-version ]]; then\n    pvm use --silent \"$(cat .php-version)\" || true\n  fi\n}\nautoload -U add-zsh-hook\nadd-zsh-hook chpwd _pvm_cd_hook\n"@
}

/// The fish directory-change hook (fires on changes of PWD).
pub open spec fn fish_cd_hook_text() -> Seq<char> {
    "\nfunction _pvm_cd_hook --on-variable PWD\n    if test -f .php-version\n        pvm use --silent (cat .php-version)\n    end\nend\n"@
}

// ---------------------------------------------------------------------------
// What a shell reads back from a quoted word
// ---------------------------------------------------------------------------

/// The literal value a POSIX shell gives the word `w`, read from its start,
/// `inside` telling whether a single-quoted stretch is open and `acc` holding
/// what was read so far. Inside single quotes every character but `'` is
/// literal; outside them only `'` (opening a quoted stretch) and a
/// backslash-escaped character are accepted, anything else (an expansion, a
/// blank) makes the word no plain literal (`None`).
pub open spec fn posix_read(w: Seq<char>, inside: bool, acc: Seq<char>) -> Option<Seq<char>>
    decreases w.len(),
{
    if w.len() == 0 {
        if inside {
            None
        } else {
            Some(acc)
        }
    } else if inside {
        if w[0] == '\'' {
            posix_read(w.drop_first(), false, acc)
        } else {
            posix_read(w.drop_first(), true, acc.push(w[0]))
        }
    } else if w[0] == '\'' {
        posix_read(w.drop_first(), true, acc)
    } else if w[0] == '\\' && w.len() >= 2 {
        posix_read(w.drop_first().drop_first(), false, acc.push(w[1]))
    } else {
        None
    }
}

/// The literal value fish gives the word `w` (same reading as `posix_read`,
/// except that inside single quotes `\\` stands for `\` and `\'` for `'`).
pub open spec fn fish_read(w: Seq<char>, inside: bool, acc: Seq<char>) -> Option<Seq<char>>
    decreases w.len(),
{
    if w.len() == 0 {
        if inside {
            None
        } else {
            Some(acc)
        }
    } else if inside {
        if w[0] == '\'' {
            fish_read(w.drop_first(), false, acc)
        } else if w[0] == '\\' && w.len() >= 2 && (w[1] == '\\' || w[1] == '\'') {
            fish_read(w.drop_first().drop_first(), true, acc.push(w[1]))
        } else {
            fish_read(w.drop_first(), true, acc.push(w[0]))
        }
    } else if w[0] == '\'' {
        fish_read(w.drop_first(), true, acc)
    } else {
        None
    }
}

proof fn lemma_posix_read_escape(s: Seq<char>, t: Seq<char>, acc: Seq<char>)
    ensures
        posix_read(posix_escape(s) + t, true, acc) == posix_read(t, true, acc + s),
    decreases s.len(),
{
    if s.len() == 0 {
        assert(posix_escape(s) + t =~= t);
        assert(acc + s =~= acc);
    } else {
        let c = s.last();
        let s0 = s.drop_last();
        assert(posix_escape(s) + t =~= posix_escape(s0) + (posix_char(c) + t));
        lemma_posix_read_escape(s0, posix_char(c) + t, acc);
        let w = posix_char(c) + t;
        let a = acc + s0;
        if c == '\'' {
            let w1 = seq!['\\', '\'', '\''] + t;
            let w3 = seq!['\''] + t;
            assert(w.drop_first() =~= w1);
            assert(w1.drop_first().drop_first() =~= w3);
            assert(w3.drop_first() =~= t);
            assert(posix_read(w, true, a) == posix_read(w1, false, a));
            assert(posix_read(w1, false, a) == posix_read(w3, false, a.push('\'')));
            assert(posix_read(w3, false, a.push('\'')) == posix_read(t, true, a.push('\'')));
        } else {
            assert(w.drop_first() =~= t);
            assert(posix_read(w, true, a) == posix_read(t, true, a.push(c)));
        }
        assert(acc + s0.push(c) =~= (acc + s0).push(c));
        assert(s0.push(c) =~= s);
    }
}

proof fn lemma_fish_read_escape(s: Seq<char>, t: Seq<char>, acc: Seq<char>)
    ensures
        fish_read(fish_escape(s) + t, true, acc) == fish_read(t, true, acc + s),
    decreases s.len(),
{
    if s.len() == 0 {
        assert(fish_escape(s) + t =~= t);
        assert(acc + s =~= acc);
    } else {
        let c = s.last();
        let s0 = s.drop_last();
        assert(fish_escape(s) + t =~= fish_escape(s0) + (fish_char(c) + t));
        lemma_fish_read_escape(s0, fish_char(c) + t, acc);
        let w = fish_char(c) + t;
        if c == '\\' || c == '\'' {
            assert(w.drop_first().drop_first() =~= t);
        } else {
            assert(w.drop_first() =~= t);
        }
        assert(acc + s0.push(c) =~= (acc + s0).push(c));
        assert(s0.push(c) =~= s);
    }
}

/// A POSIX shell reads back exactly the quoted value: whatever `value` holds
/// (quotes, `$(...)`, backticks), `posix_single_quote` makes it one literal word.
pub proof fn law_posix_quote_reads_back(value: Seq<char>)
    ensures
        posix_read(posix_quote(value), false, seq![]) == Some(value),
{
    let q = posix_quote(value);
    let e: Seq<char> = seq![];
    assert(q.drop_first() =~= posix_escape(value) + seq!['\'']);
    assert(posix_read(q, false, e) == posix_read(q.drop_first(), true, e));
    lemma_posix_read_escape(value, seq!['\''], e);
    assert(e + value =~= value);
    assert(seq!['\''].drop_first() =~= e);
    assert(posix_read(seq!['\''], true, value) == posix_read(e, false, value));
}

/// Fish reads back exactly the quoted value: `fish_single_quote` makes any
/// value one literal word.
pub proof fn law_fish_quote_reads_back(value: Seq<char>)
    ensures
        fish_read(fish_quote(value), false, seq![]) == Some(value),
{
    let q = fish_quote(value);
    let e: Seq<char> = seq![];
    assert(q.drop_first() =~= fish_escape(value) + seq!['\'']);
    assert(fish_read(q, false, e) == fish_read(q.drop_first(), true, e));
    lemma_fish_read_escape(value, seq!['\''], e);
    assert(e + value =~= value);
    assert(seq!['\''].drop_first() =~= e);
    assert(fish_read(seq!['\''], true, value) == fish_read(e, false, value));
}

// ---------------------------------------------------------------------------
// The shell interface
// ---------------------------------------------------------------------------

/// A shell that pvm can drive: each method renders text for that shell.
pub trait Shell {
    /// The PATH assignment that puts `bin_dir` in front of `rest`.
    spec fn path_text(&self, bin_dir: Seq<char>, rest: Seq<Seq<char>>) -> Seq<char>;

    /// The assignment of `value` to the environment variable `name`.
    spec fn set_env_var_text(&self, name: Seq<char>, value: Seq<char>) -> Seq<char>;

    /// The directory-change hook.
    spec fn use_on_cd_text(&self) -> Seq<char>;

    /// The `pvm` wrapper function.
    spec fn wrapper_fn_text(&self) -> Seq<char>;

    /// The commands that return the shell to the system PHP, with `rest` as PATH.
    spec fn deactivate_text(&self, rest: Seq<Seq<char>>) -> Seq<char>;

    /// Emit a PATH assignment putting `bin_dir` in front of `rest`.
    ///
    /// `rest` is the caller's already-filtered PATH (see
    /// `fs::path_without_versions`), not `$PATH`: the full value is baked in
    /// literally so an activation replaces the previous pvm entry instead of
    /// stacking a duplicate on top of it.
    fn path(&self, bin_dir: &str, rest: &[String]) -> (r: String)
        ensures
            r@ == self.path_text(bin_dir@, views(rest@)),
    ;

    /// Emit an assignment of `value` to `name`.
    fn set_env_var(&self, name: &str, value: &str) -> (r: String)
        ensures
            r@ == self.set_env_var_text(name@, value@),
    ;

    /// Emit the directory-change hook.
    fn use_on_cd(&self) -> (r: String)
        ensures
            r@ == self.use_on_cd_text(),
    ;

    /// Emit the `pvm` wrapper function.
    fn wrapper_fn(&self) -> (r: String)
        ensures
            r@ == self.wrapper_fn_text(),
    ;

    /// Emit commands that drop every pvm-managed entry from PATH and clear
    /// the multishell marker, returning the shell to the system PHP.
    fn deactivate(&self, rest: &[String]) -> (r: String)
        ensures
            r@ == self.deactivate_text(views(rest@)),
    ;
}

// ---------------------------------------------------------------------------
// Shared rendering
// ---------------------------------------------------------------------------

/// Quote a string for POSIX shells (bash/zsh) by wrapping it in single quotes
/// and escaping any embedded single quotes via the `'\''` idiom.
pub fn posix_single_quote(value: &str) -> (r: String)
    ensures
        r@ == posix_quote(value@),
{
    let v = crate::text::chars_of(value);
    let mut out = String::new();
    push_char(&mut out, '\'');
    let mut i: usize = 0;
    while i < v.len()
        invariant
            v@ == value@,
            i <= v.len(),
            out@ == seq!['\''] + posix_escape(v@.take(i as int)),
        decreases v.len() - i,
    {
        let c = v[i];
        if c == '\'' {
            push_char(&mut out, '\'');
            push_char(&mut out, '\\');
            push_char(&mut out, '\'');
            push_char(&mut out, '\'');
        } else {
            push_char(&mut out, c);
        }
        proof {
            assert(v@.take(i + 1).drop_last() =~= v@.take(i as int));
        }
        i = i + 1;
    }
    push_char(&mut out, '\'');
    assert(v@.take(v.len() as int) =~= v@);
    out
}

/// Quote a string for fish by wrapping it in single quotes and escaping `\` and `'`.
pub fn fish_single_quote(value: &str) -> (r: String)
    ensures
        r@ == fish_quote(value@),
{
    let v = crate::text::chars_of(value);
    let mut out = String::new();
    push_char(&mut out, '\'');
    let mut i: usize = 0;
    while i < v.len()
        invariant
            v@ == value@,
            i <= v.len(),
            out@ == seq!['\''] + fish_escape(v@.take(i as int)),
        decreases v.len() - i,
    {
        let c = v[i];
        if c == '\\' {
            push_char(&mut out, '\\');
            push_char(&mut out, '\\');
        } else if c == '\'' {
            push_char(&mut out, '\\');
            push_char(&mut out, '\'');
        } else {
            push_char(&mut out, c);
        }
        proof {
            assert(v@.take(i + 1).drop_last() =~= v@.take(i as int));
        }
        i = i + 1;
    }
    push_char(&mut out, '\'');
    assert(v@.take(v.len() as int) =~= v@);
    out
}

/// The entries `bin_dir` followed by `rest`, as owned strings.
fn entries_with(bin_dir: &str, rest: &[String]) -> (r: Vec<String>)
    ensures
        views(r@) == seq![bin_dir@] + views(rest@),
{
    let mut r: Vec<String> = Vec::new();
    r.push(owned(bin_dir));
    let mut i: usize = 0;
    while i < rest.len()
        invariant
            i <= rest.len(),
            views(r@) == seq![bin_dir@] + views(rest@).take(i as int),
        decreases rest.len() - i,
    {
        let ghost before = r@;
        r.push(rest[i].clone());
        proof {
            assert(views(r@) =~= views(before).push(rest@[i as int]@));
            assert(views(rest@).take(i + 1) =~= views(rest@).take(i as int).push(rest@[i as int]@));
        }
        i = i + 1;
    }
    assert(views(rest@).take(rest.len() as int) =~= views(rest@));
    r
}

/// The entries of `rest`, as owned strings.
fn entries_of(rest: &[String]) -> (r: Vec<String>)
    ensures
        views(r@) == views(rest@),
{
    let mut r: Vec<String> = Vec::new();
    let mut i: usize = 0;
    while i < rest.len()
        invariant
            i <= rest.len(),
            views(r@) == views(rest@).take(i as int),
        decreases rest.len() - i,
    {
        let ghost before = r@;
        r.push(rest[i].clone());
        proof {
            assert(views(r@) =~= views(before).push(rest@[i as int]@));
            assert(views(rest@).take(i + 1) =~= views(rest@).take(i as int).push(rest@[i as int]@));
        }
        i = i + 1;
    }
    assert(views(rest@).take(rest.len() as int) =~= views(rest@));
    r
}

/// `non_empty` of one more part.
proof fn lemma_non_empty_take(parts: Seq<Seq<char>>, i: int)
    requires
        0 <= i < parts.len(),
    ensures
        non_empty(parts.take(i + 1)) == if parts[i].len() == 0 {
            non_empty(parts.take(i))
        } else {
            non_empty(parts.take(i)).push(parts[i])
        },
{
    assert(parts.take(i + 1).drop_last() =~= parts.take(i));
}

/// Join `parts` with `sep`, leaving out the empty ones when `skip_empty` holds.
fn join_entries(parts: &Vec<String>, sep: &str, skip_empty: bool) -> (r: String)
    ensures
        r@ == join(
            if skip_empty {
                non_empty(views(parts@))
            } else {
                views(parts@)
            },
            sep@,
        ),
{
    let ghost ps = views(parts@);
    let mut out = String::new();
    let mut count: usize = 0;
    let mut i: usize = 0;
    while i < parts.len()
        invariant
            i <= parts.len(),
            ps == views(parts@),
            ({
                let done = if skip_empty {
                    non_empty(ps.take(i as int))
                } else {
                    ps.take(i as int)
                };
                &&& out@ == join(done, sep@)
                &&& count as int == done.len()
                &&& count <= i
            }),
        decreases parts.len() - i,
    {
        proof {
            lemma_non_empty_take(ps, i as int);
            assert(ps.take(i + 1) =~= ps.take(i as int).push(ps[i as int]));
            assert(ps[i as int] == parts@[i as int]@);
        }
        let empty = parts[i].as_str().is_empty();
        if !(skip_empty && empty) {
            let ghost done = if skip_empty {
                non_empty(ps.take(i as int))
            } else {
                ps.take(i as int)
            };
            proof {
                lemma_join_push(done, sep@, ps[i as int]);
            }
            if count > 0 {
                append_str(&mut out, sep);
            }
            append_str(&mut out, parts[i].as_str());
            count = count + 1;
        }
        i = i + 1;
    }
    assert(ps.take(parts.len() as int) =~= ps);
    out
}

/// `fish_words` of one more entry.
proof fn lemma_fish_words_step(ps: Seq<Seq<char>>, i: int)
    requires
        0 <= i < ps.len(),
    ensures
        fish_words(ps.take(i + 1)) == if ps[i].len() == 0 {
            fish_words(ps.take(i))
        } else if non_empty(ps.take(i)).len() == 0 {
            fish_quote(ps[i])
        } else {
            fish_words(ps.take(i)) + " "@ + fish_quote(ps[i])
        },
{
    lemma_non_empty_take(ps, i);
    let done = non_empty(ps.take(i));
    let f = |p: Seq<char>| fish_quote(p);
    if ps[i].len() > 0 {
        assert(done.push(ps[i]).map_values(f) =~= done.map_values(f).push(fish_quote(ps[i])));
        lemma_join_push(done.map_values(f), " "@, fish_quote(ps[i]));
    }
}

/// Quote each entry separately: PATH is a list in fish, not a `:`-joined string.
pub fn fish_path_words(entries: &Vec<String>) -> (r: String)
    ensures
        r@ == fish_words(views(entries@)),
{
    let ghost ps = views(entries@);
    let mut out = String::new();
    let mut count: usize = 0;
    let mut i: usize = 0;
    while i < entries.len()
        invariant
            i <= entries.len(),
            ps == views(entries@),
            out@ == fish_words(ps.take(i as int)),
            count as int == non_empty(ps.take(i as int)).len(),
            count <= i,
        decreases entries.len() - i,
    {
        proof {
            lemma_fish_words_step(ps, i as int);
            lemma_non_empty_take(ps, i as int);
            assert(ps[i as int] == entries@[i as int]@);
        }
        if !entries[i].as_str().is_empty() {
            let quoted = fish_single_quote(entries[i].as_str());
            if count > 0 {
                append_str(&mut out, " ");
            }
            append_str(&mut out, quoted.as_str());
            count = count + 1;
        }
        i = i + 1;
    }
    assert(ps.take(entries.len() as int) =~= ps);
    out
}

/// Join `bin_dir` and `rest` into a `:`-separated PATH value. Empty entries are
/// dropped: a stray `::` or trailing `:` means "current directory" to the shell.
pub fn join_path(bin_dir: &str, rest: &[String]) -> (r: String)
    ensures
        r@ == path_value(bin_dir@, views(rest@)),
{
    let parts = entries_with(bin_dir, rest);
    join_entries(&parts, ":", true)
}

/// `export PATH='...'` for bash and zsh.
pub fn posix_path(bin_dir: &str, rest: &[String]) -> (r: String)
    ensures
        r@ == posix_path_text(bin_dir@, views(rest@)),
{
    let value = join_path(bin_dir, rest);
    let mut out = owned("export PATH=");
    let quoted = posix_single_quote(value.as_str());
    append_str(&mut out, quoted.as_str());
    out
}

/// `export NAME='value'` for bash and zsh.
pub fn posix_set_env_var(name: &str, value: &str) -> (r: String)
    ensures
        r@ == posix_set_env_text(name@, value@),
{
    let mut out = owned("export ");
    append_str(&mut out, name);
    append_str(&mut out, "=");
    let quoted = posix_single_quote(value);
    append_str(&mut out, quoted.as_str());
    out
}

/// The bash/zsh wrapper function.
pub fn posix_wrapper_fn() -> (r: String)
    ensures
        r@ == posix_wrapper_text(),
{
    let d = PVM_DIR_VAR;
    let f = ENV_UPDATE_FILE;
    let mut out = owned("\ncase \":$PATH:\" in\n  *\":${");
    append_str(&mut out, d);
    append_str(&mut out, "}/bin:\"*) ;;\n  *) export PATH=\"${");
    append_str(&mut out, d);
    append_str(
        &mut out,
        "}/bin:$PATH\" ;;\nesac\n\npvm() {\n  local command=$1\n  if [[ \"$command\" == \"env\" ]]; then\n    command pvm \"$@\"\n  else\n    if [[ -n \"${",
    );
    append_str(&mut out, d);
    append_str(&mut out, "}\" && -d \"${");
    append_str(&mut out, d);
    append_str(&mut out, "}\" ]]; then\n      local env_file=\"${");
    append_str(&mut out, d);
    append_str(&mut out, "}/");
    append_str(&mut out, f);
    append_str(
        &mut out,
        "_$$_${RANDOM}${RANDOM}_$(date +%s)\"\n      [[ -f \"$env_file\" ]] && command rm -f \"$env_file\" 2>/dev/null\n      PVM_ENV_UPDATE_PATH=\"$env_file\" command pvm \"$@\"\n      local exit_code=$?\n      if [[ -f \"$env_file\" ]]; then\n        eval \"$(cat \"$env_file\")\"\n        command rm -f \"$env_file\" 2>/dev/null\n      fi\n      return $exit_code\n    else\n      command pvm \"$@\"\n    fi\n  fi\n}\n",
    );
    out
}

/// Restore `rest` as PATH and clear the multishell marker, for bash and zsh.
pub fn posix_deactivate(rest: &[String]) -> (r: String)
    ensures
        r@ == posix_deactivate_text(views(rest@)),
{
    let parts = entries_of(rest);
    let value = join_entries(&parts, ":", false);
    let mut out = owned("export PVM_MULTISHELL_PATH=''\nexport PATH=");
    let quoted = posix_single_quote(value.as_str());
    append_str(&mut out, quoted.as_str());
    out
}

// ---------------------------------------------------------------------------
// The shells
// ---------------------------------------------------------------------------

/// GNU Bash.
pub struct Bash;

impl Shell for Bash {
    open spec fn path_text(&self, bin_dir: Seq<char>, rest: Seq<Seq<char>>) -> Seq<char> {
        posix_path_text(bin_dir, rest)
    }

    open spec fn set_env_var_text(&self, name: Seq<char>, value: Seq<char>) -> Seq<char> {
        posix_set_env_text(name, value)
    }

    open spec fn use_on_cd_text(&self) -> Seq<char> {
        bash_cd_hook_text()
    }

    open spec fn wrapper_fn_text(&self) -> Seq<char> {
        posix_wrapper_text()
    }

    open spec fn deactivate_text(&self, rest: Seq<Seq<char>>) -> Seq<char> {
        posix_deactivate_text(rest)
    }

    fn path(&self, bin_dir: &str, rest: &[String]) -> (r: String) {
        posix_path(bin_dir, rest)
    }

    fn set_env_var(&self, name: &str, value: &str) -> (r: String) {
        posix_set_env_var(name, value)
    }

    fn use_on_cd(&self) -> (r: String) {
        // Bash has no chpwd hook, so this runs from PROMPT_COMMAND, i.e. after
        // every command, not just after a cd. Bail out unless the directory
        // actually changed, or every prompt would fork a pvm process.
        owned(
            "\n_pvm_cd_hook() {\n  [[ \"$PWD\" == \"${__pvm_last_pwd-}\" ]] && return\n  __pvm_last_pwd=\"$PWD\"\n  if [[ -f .php-version ]]; then\n    pvm use --silent \"$(cat .php-version)\" || true\n  fi\n}\nif [[ -n \"$BASH_VERSION\" ]]; then\n  if [[ ! \"$PROMPT_COMMAND\" == *\"_pvm_cd_hook\"* ]]; then\n    PROMPT_COMMAND=\"_pvm_cd_hook; ${PROMPT_COMMAND:-}\"\n  fi\nfi\n",
        )
    }

    fn wrapper_fn(&self) -> (r: String) {
        posix_wrapper_fn()
    }

    fn deactivate(&self, rest: &[String]) -> (r: String) {
        posix_deactivate(rest)
    }
}

/// Z shell.
pub struct Zsh;

impl Shell for Zsh {
    open spec fn path_text(&self, bin_dir: Seq<char>, rest: Seq<Seq<char>>) -> Seq<char> {
        posix_path_text(bin_dir, rest)
    }

    open spec fn set_env_var_text(&self, name: Seq<char>, value: Seq<char>) -> Seq<char> {
        posix_set_env_text(name, value)
    }

    open spec fn use_on_cd_text(&self) -> Seq<char> {
        zsh_cd_hook_text()
    }

    open spec fn wrapper_fn_text(&self) -> Seq<char> {
        posix_wrapper_text()
    }

    open spec fn deactivate_text(&self, rest: Seq<Seq<char>>) -> Seq<char> {
        posix_deactivate_text(rest)
    }

    fn path(&self, bin_dir: &str, rest: &[String]) -> (r: String) {
        posix_path(bin_dir, rest)
    }

    fn set_env_var(&self, name: &str, value: &str) -> (r: String) {
        posix_set_env_var(name, value)
    }

    fn use_on_cd(&self) -> (r: String) {
        owned(
            "\n_pvm_cd_hook() {\n  if [[ -f .php-version ]]; then\n    pvm use --silent \"$(cat .php-version)\" || true\n  fi\n}\nautoload -U add-zsh-hook\nadd-zsh-hook chpwd _pvm_cd_hook\n",
        )
    }

    fn wrapper_fn(&self) -> (r: String) {
        posix_wrapper_fn()
    }

    fn deactivate(&self, rest: &[String]) -> (r: String) {
        posix_deactivate(rest)
    }
}

/// The friendly interactive shell.
pub struct Fish;

impl Shell for Fish {
    open spec fn path_text(&self, bin_dir: Seq<char>, rest: Seq<Seq<char>>) -> Seq<char> {
        fish_path_text(bin_dir, rest)
    }

    open spec fn set_env_var_text(&self, name: Seq<char>, value: Seq<char>) -> Seq<char> {
        fish_set_env_text(name, value)
    }

    open spec fn use_on_cd_text(&self) -> Seq<char> {
        fish_cd_hook_text()
    }

    open spec fn wrapper_fn_text(&self) -> Seq<char> {
        fish_wrapper_text()
    }

    open spec fn deactivate_text(&self, rest: Seq<Seq<char>>) -> Seq<char> {
        fish_deactivate_text(rest)
    }

    fn path(&self, bin_dir: &str, rest: &[String]) -> (r: String) {
        let entries = entries_with(bin_dir, rest);
        let words = fish_path_words(&entries);
        let mut out = owned("set -gx PATH ");
        append_str(&mut out, words.as_str());
        out
    }

    fn set_env_var(&self, name: &str, value: &str) -> (r: String) {
        let mut out = owned("set -gx ");
        append_str(&mut out, name);
        append_str(&mut out, " ");
        let quoted = fish_single_quote(value);
        append_str(&mut out, quoted.as_str());
        out
    }

    fn use_on_cd(&self) -> (r: String) {
        owned(
            "\nfunction _pvm_cd_hook --on-variable PWD\n    if test -f .php-version\n        pvm use --silent (cat .php-version)\n    end\nend\n",
        )
    }

    fn deactivate(&self, rest: &[String]) -> (r: String) {
        let entries = entries_of(rest);
        let words = fish_path_words(&entries);
        let mut out = owned("set -gx PVM_MULTISHELL_PATH ''\nset -gx PATH ");
        append_str(&mut out, words.as_str());
        out
    }

    fn wrapper_fn(&self) -> (r: String) {
        let d = PVM_DIR_VAR;
        let f = ENV_UPDATE_FILE;
        let mut out = owned("\nif not contains \"$");
        append_str(&mut out, d);
        append_str(&mut out, "/bin\" $PATH\n    set -gx PATH \"$");
        append_str(&mut out, d);
        append_str(
            &mut out,
            "/bin\" $PATH\nend\n\nfunction pvm\n    set command $argv[1]\n    if test \"$command\" = \"env\"\n        command pvm $argv\n    else\n        if test -n \"$",
        );
        append_str(&mut out, d);
        append_str(&mut out, "\"; and test -d \"$");
        append_str(&mut out, d);
        append_str(&mut out, "\"\n            set env_file \"$");
        append_str(&mut out, d);
        append_str(&mut out, "/");
        append_str(&mut out, f);
        append_str(
            &mut out,
            "_$fish_pid\"_(random)(random)_(date +%s)\n            if test -f \"$env_file\"\n                command rm -f \"$env_file\" &>/dev/null\n            end\n            PVM_ENV_UPDATE_PATH=\"$env_file\" command pvm $argv\n            set exit_code $status\n            if test -f \"$env_file\"\n                source \"$env_file\"\n                command rm -f \"$env_file\" &>/dev/null\n            end\n            return $exit_code\n        else\n            command pvm $argv\n        end\n    end\nend\n",
        );
        out
    }
}

// ---------------------------------------------------------------------------
// Choosing a shell
// ---------------------------------------------------------------------------

/// The shells pvm supports.
#[derive(Clone, Copy, Debug, PartialEq, Eq, Structural)]
pub enum ShellKind {
    Bash,
    Zsh,
    Fish,
}

/// The shell named by the value of `$SHELL`: one ending in `zsh` is Zsh, one
/// ending in `fish` is Fish, anything else (an unset variable too) is Bash.
pub open spec fn shell_of(shell_var: Seq<char>) -> ShellKind {
    if seq_ends_with(shell_var, "zsh"@) {
        ShellKind::Zsh
    } else if seq_ends_with(shell_var, "fish"@) {
        ShellKind::Fish
    } else {
        ShellKind::Bash
    }
}

/// Pick the shell from the value of `$SHELL` (the empty string when unset).
pub fn detect_shell(shell_var: &str) -> (r: ShellKind)
    ensures
        r == shell_of(shell_var@),
{
    if crate::text::ends_with(shell_var, "zsh") {
        ShellKind::Zsh
    } else if crate::text::ends_with(shell_var, "fish") {
        ShellKind::Fish
    } else {
        ShellKind::Bash
    }
}

impl Shell for ShellKind {
    open spec fn path_text(&self, bin_dir: Seq<char>, rest: Seq<Seq<char>>) -> Seq<char> {
        match self {
            ShellKind::Fish => fish_path_text(bin_dir, rest),
            _ => posix_path_text(bin_dir, rest),
        }
    }

    open spec fn set_env_var_text(&self, name: Seq<char>, value: Seq<char>) -> Seq<char> {
        match self {
            ShellKind::Fish => fish_set_env_text(name, value),
            _ => posix_set_env_text(name, value),
        }
    }

    open spec fn use_on_cd_text(&self) -> Seq<char> {
        match self {
            ShellKind::Bash => bash_cd_hook_text(),
            ShellKind::Zsh => zsh_cd_hook_text(),
            ShellKind::Fish => fish_cd_hook_text(),
        }
    }

    open spec fn wrapper_fn_text(&self) -> Seq<char> {
        match self {
            ShellKind::Fish => fish_wrapper_text(),
            _ => posix_wrapper_text(),
        }
    }

    open spec fn deactivate_text(&self, rest: Seq<Seq<char>>) -> Seq<char> {
        match self {
            ShellKind::Fish => fish_deactivate_text(rest),
            _ => posix_deactivate_text(rest),
        }
    }

    fn path(&self, bin_dir: &str, rest: &[String]) -> (r: String) {
        match self {
            ShellKind::Bash => Bash.path(bin_dir, rest),
            ShellKind::Zsh => Zsh.path(bin_dir, rest),
            ShellKind::Fish => Fish.path(bin_dir, rest),
        }
    }

    fn set_env_var(&self, name: &str, value: &str) -> (r: String) {
        match self {
            ShellKind::Bash => Bash.set_env_var(name, value),
            ShellKind::Zsh => Zsh.set_env_var(name, value),
            ShellKind::Fish => Fish.set_env_var(name, value),
        }
    }

    fn use_on_cd(&self) -> (r: String) {
        match self {
            ShellKind::Bash => Bash.use_on_cd(),
            ShellKind::Zsh => Zsh.use_on_cd(),
            ShellKind::Fish => Fish.use_on_cd(),
        }
    }

    fn wrapper_fn(&self) -> (r: String) {
        match self {
            ShellKind::Bash => Bash.wrapper_fn(),
            ShellKind::Zsh => Zsh.wrapper_fn(),
            ShellKind::Fish => Fish.wrapper_fn(),
        }
    }

    fn deactivate(&self, rest: &[String]) -> (r: String) {
        match self {
            ShellKind::Bash => Bash.deactivate(rest),
            ShellKind::Zsh => Zsh.deactivate(rest),
            ShellKind::Fish => Fish.deactivate(rest),
        }
    }
}

} // verus!
