//! `pvm ls`: the rows of the installed-version list and what a pick does.
use crate::fs::{item_views, VersionItem};
use crate::text::{join, join_with, opt_str, owned, str_eq, views};
use vstd::prelude::*;

verus! {

/// List all locally installed PHP versions (interactively switch on a terminal).
#[derive(Clone, Copy, Debug, PartialEq, Eq, Structural)]
pub struct Ls;

/// One row of the list: whether it is the active version, its label, and
/// its packages joined by `, `.
#[derive(Clone, Debug, PartialEq)]
pub struct ListRow {
    pub current: bool,
    pub display: String,
    pub packages: String,
}

/// The rows for `items`, the active version (`current`) marked.
pub fn list_rows(items: &[VersionItem], current: &str) -> (r: Vec<ListRow>)
    ensures
        r@.len() == items@.len(),
        forall|i: int|
            0 <= i < r@.len() ==> {
                &&& (#[trigger] r@[i]).current == (items@[i].version@ == current@)
                &&& r@[i].display@ == items@[i].display@
                &&& r@[i].packages@ == join(views(items@[i].packages@), ", "@)
            },
{
    let mut r: Vec<ListRow> = Vec::new();
    let mut i: usize = 0;
    while i < items.len()
        invariant
            i <= items@.len(),
            r@.len() == i,
            forall|k: int|
                0 <= k < i ==> {
                    &&& (#[trigger] r@[k]).current == (items@[k].version@ == current@)
                    &&& r@[k].display@ == items@[k].display@
                    &&& r@[k].packages@ == join(views(items@[k].packages@), ", "@)
                },
        decreases items.len() - i,
    {
        let it = &items[i];
        r.push(
            ListRow {
                current: str_eq(it.version.as_str(), current),
                display: it.display.clone(),
                packages: join_with(it.packages.as_slice(), ", "),
            },
        );
        i = i + 1;
    }
    r
}

/// Whether the list is a picker: only when both stdin and stdout are
/// terminals; scripts and pipes get the plain list.
pub fn list_is_picker(stdin_tty: bool, stdout_tty: bool) -> (r: bool)
    ensures
        r == (stdin_tty && stdout_tty),
{
    stdin_tty && stdout_tty
}

/// What picking from the list does.
#[derive(Clone, Debug, PartialEq)]
pub enum LsPick {
    /// Nothing was picked (Esc).
    Leave,
    /// The active version was picked: nothing to switch.
    AlreadyActive(String),
    /// Switch to this version.
    Switch(String),
}

/// What picking `picked` does while `current` is active.
pub fn ls_pick(picked: Option<&str>, current: &str) -> (r: LsPick)
    ensures
        match picked {
            None => r == LsPick::Leave,
            Some(v) => if v@ == current@ {
                (r matches LsPick::AlreadyActive(x) && x@ == v@)
            } else {
                (r matches LsPick::Switch(x) && x@ == v@)
            },
        },
{
    match picked {
        None => LsPick::Leave,
        Some(v) => {
            if str_eq(v, current) {
                LsPick::AlreadyActive(owned(v))
            } else {
                LsPick::Switch(owned(v))
            }
        },
    }
}

} // verus!
