//! Yes/no questions.
use vstd::prelude::*;

verus! {

/// The answer to a yes/no question that needs no prompt: `assume_yes`
/// answers yes; without a terminal the question's default stands, so
/// scripts never hang on a hidden prompt. `None` means: ask.
pub fn confirm_without_prompt(default: bool, assume_yes: bool, is_tty: bool) -> (r: Option<bool>)
    ensures
        r == if assume_yes {
            Some(true)
        } else if !is_tty {
            Some(default)
        } else {
            None::<bool>
        },
{
    if assume_yes {
        Some(true)
    } else if !is_tty {
        Some(default)
    } else {
        None
    }
}

/// The answer a prompt gives: the choice made, or no when it was dismissed
/// (Esc/q).
pub fn answer_of(choice: Option<bool>) -> (r: bool)
    ensures
        r == (choice == Some(true)),
{
    match choice {
        Some(b) => b,
        None => false,
    }
}

/// Whether a step that needs approval may go ahead.
#[derive(Clone, Copy, Debug, PartialEq, Eq, Structural)]
pub enum Approval {
    /// Approved in advance (`--yes`).
    Given,
    /// Ask on the terminal.
    Ask,
    /// No terminal and no `--yes`: refuse rather than act unasked.
    Refused,
}

/// The approval for a step that must not run unasked: `--yes` approves it,
/// a terminal is asked, and anything else refuses.
pub fn approval(assume_yes: bool, is_tty: bool) -> (r: Approval)
    ensures
        r == if assume_yes {
            Approval::Given
        } else if is_tty {
            Approval::Ask
        } else {
            Approval::Refused
        },
{
    if assume_yes {
        Approval::Given
    } else if is_tty {
        Approval::Ask
    } else {
        Approval::Refused
    }
}

} // verus!
