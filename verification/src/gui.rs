//! Menu selection results and the main-menu state transition. Drawing and
//! key decoding belong to the presentation layer; only the decisions live
//! here.

use vstd::prelude::*;

verus! {

/// Outcome of an item-selection menu.
#[derive(Clone, Copy, PartialEq, Eq, Structural, Debug)]
pub enum ItemMenuResult {
    Cancel,
    NoResponse,
    Selected,
}

/// The entries of the main menu.
#[derive(Clone, Copy, PartialEq, Eq, Structural, Debug)]
pub enum MainMenuSelection {
    NewGame,
    LoadGame,
    Quit,
}

/// Outcome of one main-menu pass: either the highlight moved (or stayed),
/// or an entry was chosen.
#[derive(Clone, Copy, PartialEq, Eq, Structural, Debug)]
pub enum MainMenuResult {
    NoSelection { selected: MainMenuSelection },
    Selected { selected: MainMenuSelection },
}

/// A decoded main-menu key press.
#[derive(Clone, Copy, PartialEq, Eq, Structural, Debug)]
pub enum MenuInput {
    Idle,
    Up,
    Down,
    Select,
}

/// The entry above `s`, wrapping around.
pub open spec fn menu_up(s: MainMenuSelection) -> MainMenuSelection {
    match s {
        MainMenuSelection::NewGame => MainMenuSelection::Quit,
        MainMenuSelection::LoadGame => MainMenuSelection::NewGame,
        MainMenuSelection::Quit => MainMenuSelection::LoadGame,
    }
}

/// The entry below `s`, wrapping around.
pub open spec fn menu_down(s: MainMenuSelection) -> MainMenuSelection {
    match s {
        MainMenuSelection::NewGame => MainMenuSelection::LoadGame,
        MainMenuSelection::LoadGame => MainMenuSelection::Quit,
        MainMenuSelection::Quit => MainMenuSelection::NewGame,
    }
}

/// Advances the main menu by one input: arrows move the highlight with
/// wrap-around, select confirms the current entry, anything else leaves
/// the highlight in place.
pub fn main_menu(current: MainMenuSelection, input: MenuInput) -> (r: MainMenuResult)
    ensures
        r == (match input {
            MenuInput::Idle => MainMenuResult::NoSelection { selected: current },
            MenuInput::Up => MainMenuResult::NoSelection { selected: menu_up(current) },
            MenuInput::Down => MainMenuResult::NoSelection { selected: menu_down(current) },
            MenuInput::Select => MainMenuResult::Selected { selected: current },
        }),
{
    match input {
        MenuInput::Idle => MainMenuResult::NoSelection { selected: current },
        MenuInput::Up => {
            let next = match current {
                MainMenuSelection::NewGame => MainMenuSelection::Quit,
                MainMenuSelection::LoadGame => MainMenuSelection::NewGame,
                MainMenuSelection::Quit => MainMenuSelection::LoadGame,
            };
            MainMenuResult::NoSelection { selected: next }
        },
        MenuInput::Down => {
            let next = match current {
                MainMenuSelection::NewGame => MainMenuSelection::LoadGame,
                MainMenuSelection::LoadGame => MainMenuSelection::Quit,
                MainMenuSelection::Quit => MainMenuSelection::NewGame,
            };
            MainMenuResult::NoSelection { selected: next }
        },
        MenuInput::Select => MainMenuResult::Selected { selected: current },
    }
}

} // verus!
