//! The colour scheme and the three theme buttons of the main menu.
use vstd::prelude::*;

verus! {

/// A colour scheme of the style manager.
#[derive(Clone, Copy, Debug, PartialEq, Eq, Structural)]
pub enum ColorScheme {
    /// Follow the system.
    Default,
    ForceLight,
    PreferLight,
    PreferDark,
    ForceDark,
}

/// The theme buttons of the menu.
#[derive(Clone, Copy, Debug, PartialEq, Eq, Structural)]
pub enum ThemeChoice {
    System,
    Light,
    Dark,
}

/// The button shown active for a scheme: a light scheme lights "Light", a dark one
/// "Dark", anything else "System".
pub open spec fn choice_of(scheme: ColorScheme) -> ThemeChoice {
    match scheme {
        ColorScheme::ForceLight | ColorScheme::PreferLight => ThemeChoice::Light,
        ColorScheme::ForceDark | ColorScheme::PreferDark => ThemeChoice::Dark,
        ColorScheme::Default => ThemeChoice::System,
    }
}

/// The scheme a button sets: "System" follows the system, "Light" and "Dark" force theirs.
pub open spec fn scheme_of(choice: ThemeChoice) -> ColorScheme {
    match choice {
        ThemeChoice::System => ColorScheme::Default,
        ThemeChoice::Light => ColorScheme::ForceLight,
        ThemeChoice::Dark => ColorScheme::ForceDark,
    }
}

/// The button to show active for the current scheme.
pub fn theme_choice(scheme: ColorScheme) -> (r: ThemeChoice)
    ensures
        r == choice_of(scheme),
{
    match scheme {
        ColorScheme::ForceLight | ColorScheme::PreferLight => ThemeChoice::Light,
        ColorScheme::ForceDark | ColorScheme::PreferDark => ThemeChoice::Dark,
        ColorScheme::Default => ThemeChoice::System,
    }
}

/// The scheme to set when a theme button is pressed.
pub fn scheme_for(choice: ThemeChoice) -> (r: ColorScheme)
    ensures
        r == scheme_of(choice),
{
    match choice {
        ThemeChoice::System => ColorScheme::Default,
        ThemeChoice::Light => ColorScheme::ForceLight,
        ThemeChoice::Dark => ColorScheme::ForceDark,
    }
}

/// Pressing a theme button shows that same button active afterwards.
pub proof fn lemma_pressed_button_stays_active(choice: ThemeChoice)
    ensures
        choice_of(scheme_of(choice)) == choice,
{
}

} // verus!
