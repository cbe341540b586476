//! `pvm exec`: the PATH and exit code of a command run under a version.
use crate::text::{append_str, chars_of, no_char, owned};
use vstd::prelude::*;

verus! {

/// Run a command under a specific PHP version.
#[derive(Clone, Debug, PartialEq)]
pub struct Exec {
    /// The PHP version to run under.
    pub version: String,
    /// The command and its arguments.
    pub command: Vec<String>,
}

/// The PATH for the child: the version's bin directory in front of every
/// inherited entry (`std::env::join_paths` of the directory and
/// `split_paths` of the inherited PATH). An entry holding `:` cannot be
/// joined, so such a bin directory has no PATH.
pub open spec fn exec_path_text(bin_dir: Seq<char>, inherited: Seq<char>) -> Option<Seq<char>> {
    if no_char(bin_dir, ':') {
        Some(bin_dir + ":"@ + inherited)
    } else {
        None
    }
}

/// The PATH that makes `bin_dir`'s binaries shadow any other PHP, for one
/// child process.
pub fn exec_path(bin_dir: &str, inherited: &str) -> (r: Option<String>)
    ensures
        crate::text::opt_string(r) == exec_path_text(bin_dir@, inherited@),
{
    let v = chars_of(bin_dir);
    let mut i: usize = 0;
    while i < v.len()
        invariant
            v@ == bin_dir@,
            i <= v.len(),
            forall|k: int| 0 <= k < i ==> v@[k] != ':',
        decreases v.len() - i,
    {
        if v[i] == ':' {
            return None;
        }
        i = i + 1;
    }
    let mut out = owned(bin_dir);
    append_str(&mut out, ":");
    append_str(&mut out, inherited);
    Some(out)
}

/// The exit code to pass on: the child's own, else for a child killed by a
/// signal 128 plus its number (the shell convention), else 1.
pub fn exit_code(code: Option<i32>, signal: Option<i32>) -> (r: i32)
    ensures
        r == match code {
            Some(c) => c as int,
            None => match signal {
                Some(s) => if 128 + s <= i32::MAX {
                    128 + s
                } else {
                    1
                },
                None => 1,
            },
        },
{
    match code {
        Some(c) => c,
        None => match signal {
            Some(s) => {
                if s <= i32::MAX - 128 {
                    128 + s
                } else {
                    1
                }
            },
            None => 1,
        },
    }
}

} // verus!
