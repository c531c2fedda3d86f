//! The style decisions of the stateless UI components: which theme colour
//! each variant and tone of a component uses. Sizes, spacing and opacity are
//! floating-point design values and stay with the drawing code.

use vstd::prelude::*;

use crate::theme::ThemeColors;

verus! {

/// The look of a button.
#[derive(Clone, Copy, Debug, Default, Eq, PartialEq, Structural)]
pub enum ButtonVariant {
    #[default]
    Primary,
    Secondary,
    Danger,
}

/// The colours of a button.
#[derive(Clone, Copy, Debug, Eq, PartialEq, Structural)]
pub struct ButtonPalette {
    pub background: u32,
    pub hover: u32,
    pub text: u32,
    pub border: u32,
}

/// The colours of a button of `variant`: the accent for primary buttons, the
/// surface for secondary ones, the danger colour for dangerous ones.
pub fn button_palette(colors: &ThemeColors, variant: ButtonVariant) -> (palette: ButtonPalette)
    ensures
        palette == match variant {
            ButtonVariant::Primary => ButtonPalette {
                background: colors.accent,
                hover: colors.accent_hover,
                text: colors.on_accent,
                border: colors.accent,
            },
            ButtonVariant::Secondary => ButtonPalette {
                background: colors.surface,
                hover: colors.surface_elevated,
                text: colors.text_primary,
                border: colors.border,
            },
            ButtonVariant::Danger => ButtonPalette {
                background: colors.danger,
                hover: colors.danger_hover,
                text: colors.on_accent,
                border: colors.danger,
            },
        },
{
    match variant {
        ButtonVariant::Primary => ButtonPalette {
            background: colors.accent,
            hover: colors.accent_hover,
            text: colors.on_accent,
            border: colors.accent,
        },
        ButtonVariant::Secondary => ButtonPalette {
            background: colors.surface,
            hover: colors.surface_elevated,
            text: colors.text_primary,
            border: colors.border,
        },
        ButtonVariant::Danger => ButtonPalette {
            background: colors.danger,
            hover: colors.danger_hover,
            text: colors.on_accent,
            border: colors.danger,
        },
    }
}

/// The fill of a container.
#[derive(Clone, Copy, Debug, Default, Eq, PartialEq, Structural)]
pub enum ContainerVariant {
    Background,
    #[default]
    Surface,
    Elevated,
    Transparent,
}

/// The fill of a container: a colour, and whether it is drawn (a
/// transparent container uses the background colour with no opacity).
#[derive(Clone, Copy, Debug, Eq, PartialEq, Structural)]
pub struct ContainerFill {
    pub color: u32,
    pub opaque: bool,
    /// Whether the container casts a shadow.
    pub shadow: bool,
}

/// The fill of a container of `variant`; only elevated containers cast a
/// shadow.
pub fn container_fill(colors: &ThemeColors, variant: ContainerVariant) -> (fill: ContainerFill)
    ensures
        fill == match variant {
            ContainerVariant::Background => ContainerFill {
                color: colors.background,
                opaque: true,
                shadow: false,
            },
            ContainerVariant::Surface => ContainerFill {
                color: colors.surface,
                opaque: true,
                shadow: false,
            },
            ContainerVariant::Elevated => ContainerFill {
                color: colors.surface_elevated,
                opaque: true,
                shadow: true,
            },
            ContainerVariant::Transparent => ContainerFill {
                color: colors.background,
                opaque: false,
                shadow: false,
            },
        },
{
    match variant {
        ContainerVariant::Background => ContainerFill {
            color: colors.background,
            opaque: true,
            shadow: false,
        },
        ContainerVariant::Surface => ContainerFill {
            color: colors.surface,
            opaque: true,
            shadow: false,
        },
        ContainerVariant::Elevated => ContainerFill {
            color: colors.surface_elevated,
            opaque: true,
            shadow: true,
        },
        ContainerVariant::Transparent => ContainerFill {
            color: colors.background,
            opaque: false,
            shadow: false,
        },
    }
}

/// The direction in which a stack lays out its children.
#[derive(Clone, Copy, Debug, Default, Eq, PartialEq, Structural)]
pub enum StackDirection {
    Row,
    #[default]
    Column,
}

/// The size of a run of text.
#[derive(Clone, Copy, Debug, Default, Eq, PartialEq, Structural)]
pub enum TextKind {
    Small,
    #[default]
    Body,
    Heading,
}

/// The colour role of a run of text.
#[derive(Clone, Copy, Debug, Default, Eq, PartialEq, Structural)]
pub enum TextTone {
    #[default]
    Primary,
    Muted,
    Accent,
    Danger,
    OnAccent,
}

/// The colour of text of `tone`.
pub fn text_tone_color(colors: &ThemeColors, tone: TextTone) -> (color: u32)
    ensures
        color == match tone {
            TextTone::Primary => colors.text_primary,
            TextTone::Muted => colors.text_muted,
            TextTone::Accent => colors.accent,
            TextTone::Danger => colors.danger,
            TextTone::OnAccent => colors.on_accent,
        },
{
    match tone {
        TextTone::Primary => colors.text_primary,
        TextTone::Muted => colors.text_muted,
        TextTone::Accent => colors.accent,
        TextTone::Danger => colors.danger,
        TextTone::OnAccent => colors.on_accent,
    }
}

} // verus!
