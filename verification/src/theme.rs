//! The small, value-level parts of the theme: the light/dark mode switch and
//! the elevation (shadow) tokens that surfaces reference.

use vstd::prelude::*;

verus! {

/// Shadow strength tokens a surface can ask the theme for.
#[derive(Clone, Copy, Debug, Default, PartialEq, Eq, Structural)]
pub enum ThemeShadowToken {
    #[default]
    NoShadow,
    Xs,
    Sm,
    Md,
    Lg,
    Xl,
}

/// Elevation levels and surface shadow assignments of a theme.
#[derive(Clone, Copy, Debug)]
pub struct ThemeElevation {
    pub control_level: usize,
    pub card_rest_level: usize,
    pub tooltip_level: usize,
    pub flyout_level: usize,
    pub dialog_level: usize,
    pub shell_level: usize,
    pub inactive_window_level: usize,
    pub active_window_level: usize,
    pub surface_flyout_shadow: ThemeShadowToken,
    pub surface_panel_shadow: ThemeShadowToken,
    pub surface_card_shadow: ThemeShadowToken,
}

/// The stock elevation table.
pub fn theme_elevation_defaults() -> (r: ThemeElevation)
    ensures
        r.control_level == 2,
        r.card_rest_level == 8,
        r.tooltip_level == 16,
        r.flyout_level == 32,
        r.dialog_level == 128,
        r.shell_level == 36,
        r.inactive_window_level == 64,
        r.active_window_level == 128,
        r.surface_flyout_shadow == ThemeShadowToken::Sm,
        r.surface_panel_shadow == ThemeShadowToken::Lg,
        r.surface_card_shadow == ThemeShadowToken::Sm,
{
    ThemeElevation {
        control_level: 2,
        card_rest_level: 8,
        tooltip_level: 16,
        flyout_level: 32,
        dialog_level: 128,
        shell_level: 36,
        inactive_window_level: 64,
        active_window_level: 128,
        surface_flyout_shadow: ThemeShadowToken::Sm,
        surface_panel_shadow: ThemeShadowToken::Lg,
        surface_card_shadow: ThemeShadowToken::Sm,
    }
}

impl Default for ThemeElevation {
    fn default() -> (r: Self)
        ensures
            r.control_level == 2,
            r.flyout_level == 32,
            r.dialog_level == 128,
    {
        theme_elevation_defaults()
    }
}

/// Whether the theme renders light or dark.
#[derive(Clone, Copy, Debug, Default, PartialEq, Eq, Hash, Structural)]
pub enum ThemeMode {
    #[default]
    Light,
    Dark,
}

impl ThemeMode {
    pub fn is_dark(&self) -> (r: bool)
        ensures
            r == (*self == ThemeMode::Dark),
    {
        match self {
            ThemeMode::Dark => true,
            ThemeMode::Light => false,
        }
    }

    /// The lower-case name of the mode: `light` or `dark`.
    pub fn name(&self) -> (r: &'static str)
        ensures
            *self == ThemeMode::Light ==> r@ == "light"@,
            *self == ThemeMode::Dark ==> r@ == "dark"@,
    {
        match self {
            ThemeMode::Light => "light",
            ThemeMode::Dark => "dark",
        }
    }
}

} // verus!
