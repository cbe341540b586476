//! The master menu shown when pvm runs without a command.
use crate::text::owned;
use vstd::prelude::*;

verus! {

/// What the master menu can do.
#[derive(Clone, Copy, Debug, PartialEq, Eq, Structural)]
pub enum MenuAction {
    Use,
    Install,
    Uninstall,
    Prune,
    List,
    ListRemote,
    Current,
    Default,
    Init,
    Exit,
}

/// The menu lines, in order; the last one leaves the menu.
pub fn menu_options() -> (r: Vec<String>)
    ensures
        crate::text::views(r@) == seq![
            "Use         (Switch active PHP version)"@,
            "Install     (Install a PHP version)"@,
            "Uninstall   (Remove a PHP version)"@,
            "Prune       (Remove superseded patch versions)"@,
            "List        (View locally installed versions)"@,
            "List-Remote (View all available cloud versions)"@,
            "Current     (Print the currently active PHP version)"@,
            "Default     (Set the default PHP version for new shells)"@,
            "Init        (Initialize a .php-version file)"@,
            "Exit"@,
        ],
{
    let mut v: Vec<String> = Vec::new();
    v.push(owned("Use         (Switch active PHP version)"));
    v.push(owned("Install     (Install a PHP version)"));
    v.push(owned("Uninstall   (Remove a PHP version)"));
    v.push(owned("Prune       (Remove superseded patch versions)"));
    v.push(owned("List        (View locally installed versions)"));
    v.push(owned("List-Remote (View all available cloud versions)"));
    v.push(owned("Current     (Print the currently active PHP version)"));
    v.push(owned("Default     (Set the default PHP version for new shells)"));
    v.push(owned("Init        (Initialize a .php-version file)"));
    v.push(owned("Exit"));
    assert(crate::text::views(v@) =~= seq![
        "Use         (Switch active PHP version)"@,
        "Install     (Install a PHP version)"@,
        "Uninstall   (Remove a PHP version)"@,
        "Prune       (Remove superseded patch versions)"@,
        "List        (View locally installed versions)"@,
        "List-Remote (View all available cloud versions)"@,
        "Current     (Print the currently active PHP version)"@,
        "Default     (Set the default PHP version for new shells)"@,
        "Init        (Initialize a .php-version file)"@,
        "Exit"@,
    ]);
    v
}

/// The action of a menu selection (`None` when the menu was dismissed with
/// Esc/q, which leaves it, as does the last line or any other index).
pub open spec fn menu_action_of(selection: Option<usize>) -> MenuAction {
    match selection {
        Some(0) => MenuAction::Use,
        Some(1) => MenuAction::Install,
        Some(2) => MenuAction::Uninstall,
        Some(3) => MenuAction::Prune,
        Some(4) => MenuAction::List,
        Some(5) => MenuAction::ListRemote,
        Some(6) => MenuAction::Current,
        Some(7) => MenuAction::Default,
        Some(8) => MenuAction::Init,
        _ => MenuAction::Exit,
    }
}

/// The action of a menu selection.
pub fn menu_action(selection: Option<usize>) -> (r: MenuAction)
    ensures
        r == menu_action_of(selection),
{
    match selection {
        Some(0) => MenuAction::Use,
        Some(1) => MenuAction::Install,
        Some(2) => MenuAction::Uninstall,
        Some(3) => MenuAction::Prune,
        Some(4) => MenuAction::List,
        Some(5) => MenuAction::ListRemote,
        Some(6) => MenuAction::Current,
        Some(7) => MenuAction::Default,
        Some(8) => MenuAction::Init,
        _ => MenuAction::Exit,
    }
}

} // verus!
