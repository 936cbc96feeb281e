//! What the buttons of the menu do, and how they look.

use crate::state::GameState;
use vstd::prelude::*;

verus! {

/// The screen of the menu that is shown.
#[derive(Clone, Copy, Debug, PartialEq, Eq, Hash, Structural)]
pub enum MainMenuState {
    Splash,
    Main,
    SettingMain,
    SettingsDisplay,
    SettingsSound,
    /// No screen: the game is played.
    Disabled,
}

impl Default for MainMenuState {
    fn default() -> (s: MainMenuState)
        ensures
            s == MainMenuState::Splash,
    {
        MainMenuState::Splash
    }
}

/// What a button of the menu asks for.
#[derive(Clone, Copy, Debug, PartialEq, Eq, Structural)]
pub enum MenuButtonAction {
    Play,
    Continue,
    Settings,
    SettingsDisplay,
    SettingsSound,
    BackToMainMenu,
    BackToSettings,
    Quit,
}

/// What a pressed button changes: the screen of the menu, the phase of
/// the game, the level, and whether the program ends. `None` leaves a
/// thing as it is.
#[derive(Clone, Copy, Debug, PartialEq, Eq, Structural)]
pub struct MenuOutcome {
    pub menu: Option<MainMenuState>,
    pub game: Option<GameState>,
    pub level: Option<u32>,
    pub quit: bool,
}

/// What pressing a button with the action `action` changes.
pub open spec fn outcome_of(action: MenuButtonAction) -> MenuOutcome {
    match action {
        MenuButtonAction::Play => MenuOutcome {
            menu: Some(MainMenuState::Disabled),
            game: Some(GameState::LevelLoading),
            level: Some(1u32),
            quit: false,
        },
        MenuButtonAction::Continue => MenuOutcome {
            menu: Some(MainMenuState::Disabled),
            game: Some(GameState::Loading),
            level: None,
            quit: false,
        },
        MenuButtonAction::Settings | MenuButtonAction::BackToSettings => MenuOutcome {
            menu: Some(MainMenuState::SettingMain),
            game: None,
            level: None,
            quit: false,
        },
        MenuButtonAction::SettingsDisplay => MenuOutcome {
            menu: Some(MainMenuState::SettingsDisplay),
            game: None,
            level: None,
            quit: false,
        },
        MenuButtonAction::SettingsSound => MenuOutcome {
            menu: Some(MainMenuState::SettingsSound),
            game: None,
            level: None,
            quit: false,
        },
        MenuButtonAction::BackToMainMenu => MenuOutcome {
            menu: Some(MainMenuState::Main),
            game: None,
            level: None,
            quit: false,
        },
        MenuButtonAction::Quit => MenuOutcome { menu: None, game: None, level: None, quit: true },
    }
}

/// What pressing a button with the action `action` changes.
pub fn menu_action(action: MenuButtonAction) -> (out: MenuOutcome)
    ensures
        out == outcome_of(action),
{
    let stay = MenuOutcome { menu: None, game: None, level: None, quit: false };
    match action {
        MenuButtonAction::Play => MenuOutcome {
            menu: Some(MainMenuState::Disabled),
            game: Some(GameState::LevelLoading),
            level: Some(1),
            quit: false,
        },
        MenuButtonAction::Continue => MenuOutcome {
            menu: Some(MainMenuState::Disabled),
            game: Some(GameState::Loading),
            ..stay
        },
        MenuButtonAction::Settings => MenuOutcome {
            menu: Some(MainMenuState::SettingMain),
            ..stay
        },
        MenuButtonAction::SettingsDisplay => MenuOutcome {
            menu: Some(MainMenuState::SettingsDisplay),
            ..stay
        },
        MenuButtonAction::SettingsSound => MenuOutcome {
            menu: Some(MainMenuState::SettingsSound),
            ..stay
        },
        MenuButtonAction::BackToMainMenu => MenuOutcome {
            menu: Some(MainMenuState::Main),
            ..stay
        },
        MenuButtonAction::BackToSettings => MenuOutcome {
            menu: Some(MainMenuState::SettingMain),
            ..stay
        },
        MenuButtonAction::Quit => MenuOutcome { quit: true, ..stay },
    }
}

/// What the pointer does to a button.
#[derive(Clone, Copy, Debug, PartialEq, Eq, Structural)]
pub enum Pointer {
    Pressed,
    Hovered,
    Away,
}

/// The look of a button.
#[derive(Clone, Copy, Debug, PartialEq, Eq, Structural)]
pub enum ButtonLook {
    Normal,
    Hovered,
    HoveredPressed,
    Pressed,
}

/// The look of a button under the pointer: a button that is pressed, or
/// that holds the setting in force, looks pressed.
pub open spec fn look_of(pointer: Pointer, selected: bool) -> ButtonLook {
    match (pointer, selected) {
        (Pointer::Pressed, _) => ButtonLook::Pressed,
        (Pointer::Away, true) => ButtonLook::Pressed,
        (Pointer::Hovered, true) => ButtonLook::HoveredPressed,
        (Pointer::Hovered, false) => ButtonLook::Hovered,
        (Pointer::Away, false) => ButtonLook::Normal,
    }
}

/// The look of a button under the pointer.
pub fn button_system(pointer: Pointer, selected: bool) -> (look: ButtonLook)
    ensures
        look == look_of(pointer, selected),
{
    match pointer {
        Pointer::Pressed => ButtonLook::Pressed,
        Pointer::Hovered => if selected {
            ButtonLook::HoveredPressed
        } else {
            ButtonLook::Hovered
        },
        Pointer::Away => if selected {
            ButtonLook::Pressed
        } else {
            ButtonLook::Normal
        },
    }
}

/// Whether the button of a setting takes the selection: it is pressed
/// and does not hold the setting in force.
pub fn setting_button(pointer: Pointer, in_force: bool) -> (takes: bool)
    ensures
        takes == (pointer == Pointer::Pressed && !in_force),
{
    match pointer {
        Pointer::Pressed => !in_force,
        _ => false,
    }
}

} // verus!
