//! The once-a-day check for a newer patch of the active version.
//!
//! The caller reads and rewrites the guard file and asks the remote index;
//! the decisions are made here.
use crate::fs::{is_white, trim, trim_str};
use crate::paths::{split, split_char};
use crate::text::{
    all_digits, append_str, decimal, digits_value, lemma_decimal_digits, owned, parse_u64,
    parse_u64_str, push_char, str_eq,
};
use vstd::prelude::*;

verus! {

/// How long a check suppresses the next one: 24 hours, in seconds.
pub const UPDATE_INTERVAL_SECS: u64 = 86400;

/// Whether the check runs now.
#[derive(Clone, Copy, Debug, PartialEq, Eq, Structural)]
pub enum UpdateGate {
    /// `PVM_UPDATE_MODE=disabled`: never check.
    Disabled,
    /// The guard file records a check less than 24 hours ago.
    CheckedRecently,
    /// Check now (and record the time in the guard file).
    Due,
}

/// Whether to look now: never with `PVM_UPDATE_MODE=disabled`
/// (`mode` is the variable's value, when set); otherwise suppressed when the
/// guard file holds a time (decimal seconds) at most `now` and less than
/// 24 hours before it. A guard time after `now` (the clock went back) does not
/// suppress the check.
pub open spec fn update_gate_of(mode: Option<Seq<char>>, guard: Seq<char>, now: u64) -> UpdateGate {
    if mode == Some("disabled"@) {
        UpdateGate::Disabled
    } else if guard.len() > 0 && parse_u64(trim(guard)) is Some && parse_u64(trim(guard))->0 <= now
        && now - parse_u64(trim(guard))->0 < UPDATE_INTERVAL_SECS {
        UpdateGate::CheckedRecently
    } else {
        UpdateGate::Due
    }
}

/// Decides whether to look for a newer patch now.
pub fn update_gate(mode: Option<&str>, guard_contents: &str, now: u64) -> (r: UpdateGate)
    ensures
        r == update_gate_of(crate::text::opt_str(mode), guard_contents@, now),
{
    match mode {
        Some(m) => {
            if str_eq(m, "disabled") {
                return UpdateGate::Disabled;
            }
        },
        None => {},
    }
    if !guard_contents.is_empty() {
        let t = trim_str(guard_contents);
        match parse_u64_str(t.as_str()) {
            Some(last) => {
                if last <= now && now - last < UPDATE_INTERVAL_SECS {
                    return UpdateGate::CheckedRecently;
                }
            },
            None => {},
        }
    }
    UpdateGate::Due
}

/// What the guard file records for a check at `now`: the decimal seconds
/// and a newline.
pub fn guard_text(now: u64) -> (r: String)
    ensures
        r@ == decimal(now as nat).push('\n'),
{
    let mut r = crate::text::u64_to_decimal(now);
    push_char(&mut r, '\n');
    r
}

/// The `major.minor` line whose newest patch is looked up for `target`: none
/// for `system` or for names without a `.`.
pub open spec fn update_line_of(target: Seq<char>) -> Option<Seq<char>> {
    if target == "system"@ {
        None
    } else {
        crate::fs::minor_spec(target)
    }
}

/// The line to look up for the active version `target`.
pub fn update_line(target: &str) -> (r: Option<String>)
    ensures
        crate::text::opt_string(r) == update_line_of(target@),
{
    if str_eq(target, "system") {
        None
    } else {
        crate::fs::minor_of(target)
    }
}

/// The version to offer: the newest patch of the line, when the index
/// resolved one and it differs from the active version.
pub fn newer_patch(target: &str, latest_matching: Option<&str>) -> (r: Option<String>)
    ensures
        crate::text::opt_string(r) == match latest_matching {
            Some(l) => if l@ != target@ {
                Some(l@)
            } else {
                None
            },
            None => None,
        },
{
    match latest_matching {
        Some(l) => if !str_eq(l, target) {
            Some(owned(l))
        } else {
            None
        },
        None => None,
    }
}

/// A check recorded at `then` suppresses every check for the next 24
/// hours: once the guard file holds `guard_text(then)`, the answer at any
/// `now` within a day after `then` is not to look (unless looking is disabled).
pub proof fn law_guard_suppresses_for_a_day(mode: Option<Seq<char>>, then: u64, now: u64)
    requires
        then <= now,
        now - then < UPDATE_INTERVAL_SECS,
        mode != Some("disabled"@),
    ensures
        update_gate_of(mode, decimal(then as nat).push('\n'), now) == UpdateGate::CheckedRecently,
{
    let d = decimal(then as nat);
    lemma_decimal_digits(then as nat);
    let g = d.push('\n');
    assert(trim(g) == d) by {
        lemma_trim_digits_newline(d);
    }
    assert(parse_u64(d) == Some(then)) by {
        assert(!(d.len() > 0 && d[0] == '+')) by {
            assert(crate::text::is_digit(d[0]));
        }
    }
}

/// Trimming a digit string followed by a newline leaves the digits.
proof fn lemma_trim_digits_newline(d: Seq<char>)
    requires
        all_digits(d),
        d.len() > 0,
    ensures
        trim(d.push('\n')) == d,
{
    let g = d.push('\n');
    assert(crate::text::is_digit(d[0]));
    assert(!is_white(g[0]));
    assert(crate::fs::trim_start(g) == g);
    assert(is_white('\n'));
    assert(g.drop_last() =~= d);
    assert(crate::text::is_digit(d.last()));
    assert(!is_white(d.last()));
    assert(crate::fs::trim_end(g) == crate::fs::trim_end(d));
}

} // verus!
