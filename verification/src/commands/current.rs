//! `pvm current`: the active version.
use vstd::prelude::*;

verus! {

/// Print the currently active PHP version (see `fs::get_current_version`).
#[derive(Clone, Copy, Debug, PartialEq, Eq, Structural)]
pub struct Current;

} // verus!
