//! Semantic colour roles and the light and dark themes that fill them.

use vstd::prelude::*;

use crate::tokens::{self, blue, green, red};

verus! {

/// Light or dark appearance.
#[derive(Clone, Copy, Debug, Default, Eq, PartialEq, Structural)]
pub enum ThemeMode {
    Light,
    #[default]
    Dark,
}

/// The colour of each semantic role, as `0xRRGGBB`.
#[derive(Clone, Copy, Debug, Eq, PartialEq, Structural)]
pub struct ThemeColors {
    pub background: u32,
    pub surface: u32,
    pub surface_elevated: u32,
    pub text_primary: u32,
    pub text_muted: u32,
    pub border: u32,
    pub accent: u32,
    pub accent_hover: u32,
    pub on_accent: u32,
    pub danger: u32,
    pub danger_hover: u32,
    pub focus_ring: u32,
    pub shadow: u32,
}

/// A theme: its mode and its colours.
#[derive(Clone, Copy, Debug, Eq, PartialEq, Structural)]
pub struct Theme {
    pub mode: ThemeMode,
    pub colors: ThemeColors,
}

/// The colours of the light theme.
pub open spec fn light_colors() -> ThemeColors {
    ThemeColors {
        background: tokens::NEUTRAL_50,
        surface: tokens::WHITE,
        surface_elevated: tokens::NEUTRAL_100,
        text_primary: tokens::NEUTRAL_900,
        text_muted: tokens::NEUTRAL_600,
        border: tokens::NEUTRAL_200,
        accent: tokens::BLUE_600,
        accent_hover: tokens::BLUE_700,
        on_accent: tokens::WHITE,
        danger: tokens::RED_600,
        danger_hover: tokens::RED_700,
        focus_ring: tokens::BLUE_600,
        shadow: tokens::NEUTRAL_950,
    }
}

/// The colours of the dark theme.
pub open spec fn dark_colors() -> ThemeColors {
    ThemeColors {
        background: tokens::DARK_BACKGROUND,
        surface: tokens::NEUTRAL_900,
        surface_elevated: tokens::NEUTRAL_800,
        text_primary: tokens::NEUTRAL_50,
        text_muted: tokens::NEUTRAL_400,
        border: tokens::NEUTRAL_700,
        accent: tokens::BLUE_500,
        accent_hover: tokens::BLUE_400,
        on_accent: tokens::WHITE,
        danger: tokens::RED_500,
        danger_hover: tokens::RED_400,
        focus_ring: tokens::BLUE_500,
        shadow: tokens::NEUTRAL_950,
    }
}

/// The theme of a mode.
pub open spec fn theme_of(mode: ThemeMode) -> Theme {
    match mode {
        ThemeMode::Light => Theme { mode: ThemeMode::Light, colors: light_colors() },
        ThemeMode::Dark => Theme { mode: ThemeMode::Dark, colors: dark_colors() },
    }
}

/// The other mode.
pub open spec fn opposite(mode: ThemeMode) -> ThemeMode {
    match mode {
        ThemeMode::Light => ThemeMode::Dark,
        ThemeMode::Dark => ThemeMode::Light,
    }
}

impl Theme {
    /// The theme of `mode`.
    pub fn new(mode: ThemeMode) -> (theme: Theme)
        ensures
            theme == theme_of(mode),
    {
        match mode {
            ThemeMode::Light => Theme::light(),
            ThemeMode::Dark => Theme::dark(),
        }
    }

    /// The light theme.
    pub fn light() -> (theme: Theme)
        ensures
            theme == theme_of(ThemeMode::Light),
    {
        Theme {
            mode: ThemeMode::Light,
            colors: ThemeColors {
                background: tokens::NEUTRAL_50,
                surface: tokens::WHITE,
                surface_elevated: tokens::NEUTRAL_100,
                text_primary: tokens::NEUTRAL_900,
                text_muted: tokens::NEUTRAL_600,
                border: tokens::NEUTRAL_200,
                accent: tokens::BLUE_600,
                accent_hover: tokens::BLUE_700,
                on_accent: tokens::WHITE,
                danger: tokens::RED_600,
                danger_hover: tokens::RED_700,
                focus_ring: tokens::BLUE_600,
                shadow: tokens::NEUTRAL_950,
            },
        }
    }

    /// The dark theme.
    pub fn dark() -> (theme: Theme)
        ensures
            theme == theme_of(ThemeMode::Dark),
    {
        Theme {
            mode: ThemeMode::Dark,
            colors: ThemeColors {
                background: tokens::DARK_BACKGROUND,
                surface: tokens::NEUTRAL_900,
                surface_elevated: tokens::NEUTRAL_800,
                text_primary: tokens::NEUTRAL_50,
                text_muted: tokens::NEUTRAL_400,
                border: tokens::NEUTRAL_700,
                accent: tokens::BLUE_500,
                accent_hover: tokens::BLUE_400,
                on_accent: tokens::WHITE,
                danger: tokens::RED_500,
                danger_hover: tokens::RED_400,
                focus_ring: tokens::BLUE_500,
                shadow: tokens::NEUTRAL_950,
            },
        }
    }

    /// Switches to the theme of `mode`.
    pub fn set_mode(&mut self, mode: ThemeMode)
        ensures
            *final(self) == theme_of(mode),
    {
        *self = Theme::new(mode);
    }

    /// Switches to the theme of the other mode.
    pub fn toggle(&mut self)
        ensures
            *final(self) == theme_of(opposite(old(self).mode)),
    {
        let next = match self.mode {
            ThemeMode::Light => ThemeMode::Dark,
            ThemeMode::Dark => ThemeMode::Light,
        };
        self.set_mode(next);
    }
}

/// Toggling a theme twice gives it back.
pub proof fn lemma_toggle_twice(mode: ThemeMode)
    ensures
        theme_of(opposite(theme_of(opposite(theme_of(mode).mode)).mode)) == theme_of(mode),
{
}

/// A theme's mode is the mode it was made for.
pub proof fn lemma_theme_mode(mode: ThemeMode)
    ensures
        theme_of(mode).mode == mode,
{
}

/// The two themes differ in background and in primary text.
pub proof fn lemma_themes_distinct()
    ensures
        light_colors().background != dark_colors().background,
        light_colors().text_primary != dark_colors().text_primary,
{
}

/// The largest channel of a colour less its smallest.
pub open spec fn channel_spread(c: u32) -> int {
    let hi = if red(c) >= green(c) && red(c) >= blue(c) {
        red(c)
    } else if green(c) >= blue(c) {
        green(c)
    } else {
        blue(c)
    };
    let lo = if red(c) <= green(c) && red(c) <= blue(c) {
        red(c)
    } else if green(c) <= blue(c) {
        green(c)
    } else {
        blue(c)
    };
    hi - lo
}

/// The dark theme's surfaces are neutral (their channels differ by less than
/// 2% of the range) and layered: background, surface and elevated surface
/// grow lighter in that order.
pub proof fn lemma_dark_surfaces_neutral_and_layered()
    ensures
        channel_spread(dark_colors().background) * 50 < 255,
        channel_spread(dark_colors().surface) * 50 < 255,
        channel_spread(dark_colors().surface_elevated) * 50 < 255,
        red(dark_colors().background) < red(dark_colors().surface),
        red(dark_colors().surface) < red(dark_colors().surface_elevated),
{
}

/// How light a colour is: the sum of its three channels, from 0 (black) to
/// 765 (white).
pub open spec fn lightness(c: u32) -> int {
    red(c) + green(c) + blue(c)
}

/// The distance between two lightness values.
pub open spec fn lightness_gap(a: u32, b: u32) -> int {
    if lightness(a) >= lightness(b) {
        lightness(a) - lightness(b)
    } else {
        lightness(b) - lightness(a)
    }
}

/// In each theme, text stands out from what it is drawn on: primary text
/// differs in lightness from the background, the surface and the elevated
/// surface by more than half of the whole range, muted text by more than a
/// quarter of it, and primary text always stands out more than muted text;
/// text on an accent differs from the accent by more than a quarter too.
/// Text is darker than the background in the light theme and lighter in the
/// dark one.
pub proof fn lemma_text_contrasts(mode: ThemeMode)
    ensures
        lightness_gap(theme_of(mode).colors.text_primary, theme_of(mode).colors.background) * 2
            > 765,
        lightness_gap(theme_of(mode).colors.text_primary, theme_of(mode).colors.surface) * 2 > 765,
        lightness_gap(theme_of(mode).colors.text_primary, theme_of(mode).colors.surface_elevated)
            * 2 > 765,
        lightness_gap(theme_of(mode).colors.text_muted, theme_of(mode).colors.background) * 4
            > 765,
        lightness_gap(theme_of(mode).colors.text_muted, theme_of(mode).colors.surface) * 4 > 765,
        lightness_gap(theme_of(mode).colors.text_muted, theme_of(mode).colors.surface_elevated)
            * 4 > 765,
        lightness_gap(theme_of(mode).colors.text_primary, theme_of(mode).colors.background)
            > lightness_gap(theme_of(mode).colors.text_muted, theme_of(mode).colors.background),
        lightness_gap(theme_of(mode).colors.on_accent, theme_of(mode).colors.accent) * 4 > 765,
        mode == ThemeMode::Light ==> lightness(theme_of(mode).colors.text_primary) < lightness(
            theme_of(mode).colors.background,
        ),
        mode == ThemeMode::Dark ==> lightness(theme_of(mode).colors.text_primary) > lightness(
            theme_of(mode).colors.background,
        ),
{
    assert(lightness(tokens::NEUTRAL_50) == 737);
    assert(lightness(tokens::WHITE) == 765);
    assert(lightness(tokens::NEUTRAL_100) == 692);
    assert(lightness(tokens::NEUTRAL_900) == 134);
    assert(lightness(tokens::NEUTRAL_600) == 300);
    assert(lightness(tokens::DARK_BACKGROUND) == 109);
    assert(lightness(tokens::NEUTRAL_800) == 176);
    assert(lightness(tokens::NEUTRAL_400) == 526);
    assert(lightness(tokens::BLUE_600) == 377);
    assert(lightness(tokens::BLUE_500) == 397);
}

} // verus!
