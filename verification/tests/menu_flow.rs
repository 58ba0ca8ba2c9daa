use steam_cli_launcher::menu::{menu_after_launch, menu_step, MenuAction, MenuState};

#[test]
fn home_inputs_are_dispatched() {
    assert_eq!(menu_step(MenuState::Home, "G"), (MenuState::Library, MenuAction::ShowMenu));
    assert_eq!(menu_step(MenuState::Home, "g\n"), (MenuState::Library, MenuAction::ShowMenu));
    assert_eq!(menu_step(MenuState::Home, "Q"), (MenuState::Home, MenuAction::Quit));
    assert_eq!(menu_step(MenuState::Home, " q "), (MenuState::Home, MenuAction::Quit));
    assert_eq!(menu_step(MenuState::Home, "clear"), (MenuState::Home, MenuAction::ClearScreen));
}

#[test]
fn home_reprompts_on_unrecognized_input() {
    assert_eq!(menu_step(MenuState::Home, "x"), (MenuState::Home, MenuAction::Unrecognized));
    assert_eq!(menu_step(MenuState::Home, ""), (MenuState::Home, MenuAction::Unrecognized));
}

#[test]
fn library_inputs_are_dispatched() {
    assert_eq!(menu_step(MenuState::Library, "L"), (MenuState::Library, MenuAction::ListGames));
    assert_eq!(menu_step(MenuState::Library, "l "), (MenuState::Library, MenuAction::ListGames));
    assert_eq!(
        menu_step(MenuState::Library, "S"),
        (MenuState::Library, MenuAction::PromptLaunch)
    );
    assert_eq!(
        menu_step(MenuState::Library, "s\n"),
        (MenuState::Library, MenuAction::PromptLaunch)
    );
    assert_eq!(menu_step(MenuState::Library, "B"), (MenuState::Home, MenuAction::ShowMenu));
    assert_eq!(menu_step(MenuState::Library, "b"), (MenuState::Home, MenuAction::ShowMenu));
}

#[test]
fn library_reprompts_on_unrecognized_input() {
    assert_eq!(menu_step(MenuState::Library, "?"), (MenuState::Library, MenuAction::Unrecognized));
    assert_eq!(
        menu_step(MenuState::Library, "quit"),
        (MenuState::Library, MenuAction::Unrecognized)
    );
}

#[test]
fn launch_outcome_decides_the_level() {
    assert_eq!(menu_after_launch(true), MenuState::Home);
    assert_eq!(menu_after_launch(false), MenuState::Library);
}
