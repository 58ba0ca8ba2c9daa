//! The interactive menu's state machine: two nested levels, decided purely
//! from the trimmed input line. Unrecognized input re-prompts at both levels.

use vstd::prelude::*;
use crate::text::{str_eq, trim_str, trim_of};

verus! {

/// The two levels of the menu.
#[derive(Debug, PartialEq, Eq, Structural, Clone, Copy)]
pub enum MenuState {
    /// The home level: enter the library or quit.
    Home,
    /// The library level: list games, start one, or go back.
    Library,
}

/// What the caller has to do after a step of the menu.
#[derive(Debug, PartialEq, Eq, Structural, Clone, Copy)]
pub enum MenuAction {
    /// Show the prompt of the (possibly new) level.
    ShowMenu,
    /// Fetch and print the owned games, then re-prompt.
    ListGames,
    /// Ask for a game id and launch it.
    PromptLaunch,
    /// Clear the screen, then re-prompt.
    ClearScreen,
    /// Leave the menu.
    Quit,
    /// Say the input was not recognized, then re-prompt.
    Unrecognized,
}

/// One step of the menu: takes the level and the raw input line, and decides
/// the next level and the action, from the trimmed line alone.
pub fn menu_step(state: MenuState, input: &str) -> (r: (MenuState, MenuAction))
    ensures
        ({
            let t = trim_of(input@);
            match state {
                MenuState::Home => {
                    if t == "G"@ || t == "g"@ {
                        r == (MenuState::Library, MenuAction::ShowMenu)
                    } else if t == "Q"@ || t == "q"@ {
                        r == (MenuState::Home, MenuAction::Quit)
                    } else if t == "clear"@ {
                        r == (MenuState::Home, MenuAction::ClearScreen)
                    } else {
                        r == (MenuState::Home, MenuAction::Unrecognized)
                    }
                },
                MenuState::Library => {
                    if t == "L"@ || t == "l"@ {
                        r == (MenuState::Library, MenuAction::ListGames)
                    } else if t == "S"@ || t == "s"@ {
                        r == (MenuState::Library, MenuAction::PromptLaunch)
                    } else if t == "B"@ || t == "b"@ {
                        r == (MenuState::Home, MenuAction::ShowMenu)
                    } else {
                        r == (MenuState::Library, MenuAction::Unrecognized)
                    }
                },
            }
        }),
{
    let t = trim_str(input);
    match state {
        MenuState::Home => {
            if str_eq(t, "G") || str_eq(t, "g") {
                (MenuState::Library, MenuAction::ShowMenu)
            } else if str_eq(t, "Q") || str_eq(t, "q") {
                (MenuState::Home, MenuAction::Quit)
            } else if str_eq(t, "clear") {
                (MenuState::Home, MenuAction::ClearScreen)
            } else {
                (MenuState::Home, MenuAction::Unrecognized)
            }
        },
        MenuState::Library => {
            if str_eq(t, "L") || str_eq(t, "l") {
                (MenuState::Library, MenuAction::ListGames)
            } else if str_eq(t, "S") || str_eq(t, "s") {
                (MenuState::Library, MenuAction::PromptLaunch)
            } else if str_eq(t, "B") || str_eq(t, "b") {
                (MenuState::Home, MenuAction::ShowMenu)
            } else {
                (MenuState::Library, MenuAction::Unrecognized)
            }
        },
    }
}

/// Where the menu stands after a launch attempt: a successful launch returns
/// to the home level, a failed one is reported and the library level
/// re-prompts.
pub fn menu_after_launch(launched: bool) -> (r: MenuState)
    ensures
        r == (if launched {
            MenuState::Home
        } else {
            MenuState::Library
        }),
{
    if launched {
        MenuState::Home
    } else {
        MenuState::Library
    }
}

} // verus!
