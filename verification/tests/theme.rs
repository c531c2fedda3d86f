use zuxi::components::{
    button_palette, container_fill, text_tone_color, ButtonPalette, ButtonVariant,
    ContainerFill, ContainerVariant, TextTone,
};
use zuxi::theme::{Theme, ThemeMode};
use zuxi::tokens;

struct Channels {
    r: f32,
    g: f32,
    b: f32,
}

fn channels(hex: u32) -> Channels {
    Channels {
        r: ((hex >> 16) & 0xff) as f32 / 255.0,
        g: ((hex >> 8) & 0xff) as f32 / 255.0,
        b: (hex & 0xff) as f32 / 255.0,
    }
}

#[test]
fn variants_have_distinct_semantic_colors() {
    let light = Theme::light();
    let dark = Theme::dark();

    assert_ne!(light.colors.background, dark.colors.background);
    assert_ne!(light.colors.text_primary, dark.colors.text_primary);
    assert_eq!(light.mode, ThemeMode::Light);
    assert_eq!(dark.mode, ThemeMode::Dark);
}

#[test]
fn dark_theme_uses_requested_background() {
    assert_eq!(Theme::dark().colors.background, tokens::DARK_BACKGROUND);
}

#[test]
fn dark_surfaces_are_neutral_and_layered() {
    let colors = Theme::dark().colors;

    for hex in [colors.background, colors.surface, colors.surface_elevated] {
        let surface = channels(hex);
        let brightest = surface.r.max(surface.g).max(surface.b);
        let darkest = surface.r.min(surface.g).min(surface.b);
        assert!(brightest - darkest < 0.02);
    }

    assert!(channels(colors.background).r < channels(colors.surface).r);
    assert!(channels(colors.surface).r < channels(colors.surface_elevated).r);
}

#[test]
fn toggling_switches_mode_and_twice_gives_the_theme_back() {
    let mut theme = Theme::new(ThemeMode::Dark);
    theme.toggle();
    assert_eq!(theme, Theme::light());
    theme.toggle();
    assert_eq!(theme, Theme::dark());
    theme.set_mode(ThemeMode::Light);
    assert_eq!(theme.mode, ThemeMode::Light);
    assert_eq!(theme.colors.surface, tokens::WHITE);
    assert_eq!(ThemeMode::default(), ThemeMode::Dark);
}

#[test]
fn components_pick_their_theme_roles() {
    let colors = Theme::dark().colors;
    assert_eq!(
        button_palette(&colors, ButtonVariant::Primary),
        ButtonPalette {
            background: tokens::BLUE_500,
            hover: tokens::BLUE_400,
            text: tokens::WHITE,
            border: tokens::BLUE_500,
        }
    );
    assert_eq!(button_palette(&colors, ButtonVariant::Secondary).hover, tokens::NEUTRAL_800);
    assert_eq!(button_palette(&colors, ButtonVariant::Danger).background, tokens::RED_500);
    assert_eq!(
        container_fill(&colors, ContainerVariant::Elevated),
        ContainerFill { color: tokens::NEUTRAL_800, opaque: true, shadow: true }
    );
    assert!(!container_fill(&colors, ContainerVariant::Transparent).opaque);
    assert_eq!(container_fill(&colors, ContainerVariant::default()).color, tokens::NEUTRAL_900);
    assert_eq!(text_tone_color(&colors, TextTone::Muted), tokens::NEUTRAL_400);
    assert_eq!(text_tone_color(&Theme::light().colors, TextTone::Accent), tokens::BLUE_600);
}
