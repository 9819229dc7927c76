//! The decisions of the interactive menu: which entry means which action.

use vstd::prelude::*;

verus! {

/// What an entry of the menu asks for.
#[derive(Clone, Copy, PartialEq, Eq, Debug, Structural)]
pub enum MenuAction {
    Validate,
    Generate,
    Import,
    Convert,
    Learn,
    Example,
    Exit,
}

/// The number of entries of the menu.
pub const MENU_ENTRIES: usize = 7;

/// The action of the entry at a position, counted from 0.
pub open spec fn spec_menu_action(selection: usize) -> Option<MenuAction> {
    if selection == 0 {
        Some(MenuAction::Validate)
    } else if selection == 1 {
        Some(MenuAction::Generate)
    } else if selection == 2 {
        Some(MenuAction::Import)
    } else if selection == 3 {
        Some(MenuAction::Convert)
    } else if selection == 4 {
        Some(MenuAction::Learn)
    } else if selection == 5 {
        Some(MenuAction::Example)
    } else if selection == 6 {
        Some(MenuAction::Exit)
    } else {
        None
    }
}

/// The action of the entry at a position, counted from 0.
pub fn menu_action(selection: usize) -> (action: Option<MenuAction>)
    ensures
        action == spec_menu_action(selection),
        action is Some <==> selection < MENU_ENTRIES,
{
    match selection {
        0 => Some(MenuAction::Validate),
        1 => Some(MenuAction::Generate),
        2 => Some(MenuAction::Import),
        3 => Some(MenuAction::Convert),
        4 => Some(MenuAction::Learn),
        5 => Some(MenuAction::Example),
        6 => Some(MenuAction::Exit),
        _ => None,
    }
}

/// Whether the menu is shown again after an action.
pub fn continues_after(action: MenuAction) -> (again: bool)
    ensures
        again == (action != MenuAction::Exit),
{
    match action {
        MenuAction::Exit => false,
        _ => true,
    }
}

/// The word count of the entry at a position of the length menu: the
/// first entry is 12 words, every other 24.
pub fn word_count_choice(selection: usize) -> (count: usize)
    ensures
        count == if selection == 0 {
            12usize
        } else {
            24usize
        },
{
    if selection == 0 {
        12
    } else {
        24
    }
}

} // verus!
