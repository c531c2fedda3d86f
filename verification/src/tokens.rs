//! Raw design tokens: the colour values, as `0xRRGGBB`.

use vstd::prelude::*;

verus! {

pub const WHITE: u32 = 0xffffff;

/// sRGB equivalent of `oklch(0.26 0.004 264.5)`.
pub const DARK_BACKGROUND: u32 = 0x232426;

pub const NEUTRAL_50: u32 = 0xf5f5f7;
pub const NEUTRAL_100: u32 = 0xe5e5ea;
pub const NEUTRAL_200: u32 = 0xd1d1d6;
pub const NEUTRAL_300: u32 = 0xc7c7cc;
pub const NEUTRAL_400: u32 = 0xaeaeb2;
pub const NEUTRAL_500: u32 = 0x8e8e93;
pub const NEUTRAL_600: u32 = 0x636366;
pub const NEUTRAL_700: u32 = 0x48484a;
pub const NEUTRAL_800: u32 = 0x3a3a3c;
pub const NEUTRAL_900: u32 = 0x2c2c2e;
pub const NEUTRAL_950: u32 = 0x1c1c1e;

pub const BLUE_400: u32 = 0x409cff;
pub const BLUE_500: u32 = 0x0a84ff;
pub const BLUE_600: u32 = 0x007aff;
pub const BLUE_700: u32 = 0x0066cc;

pub const RED_400: u32 = 0xff6961;
pub const RED_500: u32 = 0xff453a;
pub const RED_600: u32 = 0xff3b30;
pub const RED_700: u32 = 0xd70015;

pub const SNOW_A: u32 = 0x001D51;
pub const SNOW_B: u32 = 0xFFE3A5;

pub const ARC_A: u32 = 0xF9D74A;
pub const ARC_B: u32 = 0x1E1E1C;

pub const D350: u32 = 0xC3D8C5;
pub const D351: u32 = 0xFAFAFA;
pub const D352: u32 = 0x51504F;
pub const D353: u32 = 0xA8C0B2;
pub const D354: u32 = 0xFF7247;

/// The red channel of a colour.
pub open spec fn red(c: u32) -> int {
    (c as int / 0x10000) % 0x100
}

/// The green channel of a colour.
pub open spec fn green(c: u32) -> int {
    (c as int / 0x100) % 0x100
}

/// The blue channel of a colour.
pub open spec fn blue(c: u32) -> int {
    c as int % 0x100
}

} // verus!
