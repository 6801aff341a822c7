//! Theme presets: which settings a preset fills in. A preset never
//! overrides a setting given on the command line or in the configuration
//! file, and fills an effect only when no effect of that kind is configured.
use vstd::prelude::*;
use crate::util::str_equals;

verus! {

#[derive(Clone, Copy, Debug, PartialEq, Eq, Structural)]
pub enum ThemePreset {
    Modern,
    Pixel,
    Glass,
    Dark,
    Light,
    Nord,
    Dracula,
}

/// The colours that presets use.
#[derive(Clone, Copy, Debug, PartialEq, Eq, Structural)]
pub enum ThemeColor {
    /// Opaque light blue ring.
    ModernRing,
    /// Opaque red ring.
    PixelRing,
    /// Half-transparent white ring.
    GlassRing,
    /// Faint white inside.
    GlassInside,
    /// Light grey ring.
    DarkRing,
    /// Half-transparent black inside.
    DarkInside,
    /// Dark grey ring.
    LightRing,
    /// Half-transparent white inside.
    LightInside,
    /// Nord frost blue ring.
    NordRing,
    /// Nord polar night inside.
    NordInside,
    /// Dracula purple ring.
    DraculaRing,
    /// Dracula background inside.
    DraculaInside,
}

/// What is already configured, and what came from the command line.
#[derive(Clone, Copy, Debug, PartialEq, Eq, Structural)]
pub struct ThemeInputs {
    pub blur_set: bool,
    pub vignette_set: bool,
    pub pixelate_set: bool,
    pub blur_on_cli: bool,
    pub vignette_on_cli: bool,
    pub pixelate_on_cli: bool,
    pub radius_on_cli: bool,
    pub ring_on_cli: bool,
    pub inside_on_cli: bool,
    pub radius_in_file: bool,
    pub ring_in_file: bool,
    pub inside_in_file: bool,
}

/// The settings a preset fills in; `None` and `false` leave a setting alone.
#[derive(Clone, Copy, Debug)]
pub struct ThemeChanges {
    /// Blur radius and passes.
    pub blur: Option<(u32, u32)>,
    /// Set the vignette to base 0.5, factor 0.5.
    pub default_vignette: bool,
    /// Pixel size.
    pub pixelate: Option<u32>,
    /// Indicator radius.
    pub indicator_radius: Option<u32>,
    pub ring_color: Option<ThemeColor>,
    pub inside_color: Option<ThemeColor>,
}

/// The preset named `name`, if there is one.
pub open spec fn spec_theme_preset(name: Seq<char>) -> Option<ThemePreset> {
    if name == "modern"@ {
        Some(ThemePreset::Modern)
    } else if name == "pixel"@ {
        Some(ThemePreset::Pixel)
    } else if name == "glass"@ {
        Some(ThemePreset::Glass)
    } else if name == "dark"@ {
        Some(ThemePreset::Dark)
    } else if name == "light"@ {
        Some(ThemePreset::Light)
    } else if name == "nord"@ {
        Some(ThemePreset::Nord)
    } else if name == "dracula"@ {
        Some(ThemePreset::Dracula)
    } else {
        None
    }
}

/// The preset named `name`: `modern`, `pixel`, `glass`, `dark`, `light`,
/// `nord` or `dracula`.
pub fn theme_preset(name: &str) -> (preset: Option<ThemePreset>)
    ensures
        preset == spec_theme_preset(name@),
{
    if str_equals(name, "modern") {
        Some(ThemePreset::Modern)
    } else if str_equals(name, "pixel") {
        Some(ThemePreset::Pixel)
    } else if str_equals(name, "glass") {
        Some(ThemePreset::Glass)
    } else if str_equals(name, "dark") {
        Some(ThemePreset::Dark)
    } else if str_equals(name, "light") {
        Some(ThemePreset::Light)
    } else if str_equals(name, "nord") {
        Some(ThemePreset::Nord)
    } else if str_equals(name, "dracula") {
        Some(ThemePreset::Dracula)
    } else {
        None
    }
}

/// A colour preset: its ring and inside colours, where neither is set by
/// the user, and nothing else.
pub open spec fn palette_changes(ring: ThemeColor, inside: ThemeColor, i: ThemeInputs) -> ThemeChanges {
    ThemeChanges {
        blur: None,
        default_vignette: false,
        pixelate: None,
        indicator_radius: None,
        ring_color: if !i.ring_on_cli && !i.ring_in_file {
            Some(ring)
        } else {
            None
        },
        inside_color: if !i.inside_on_cli && !i.inside_in_file {
            Some(inside)
        } else {
            None
        },
    }
}

fn palette(ring: ThemeColor, inside: ThemeColor, inputs: ThemeInputs) -> (changes: ThemeChanges)
    ensures
        changes == palette_changes(ring, inside, inputs),
{
    ThemeChanges {
        blur: None,
        default_vignette: false,
        pixelate: None,
        indicator_radius: None,
        ring_color: if !inputs.ring_on_cli && !inputs.ring_in_file {
            Some(ring)
        } else {
            None
        },
        inside_color: if !inputs.inside_on_cli && !inputs.inside_in_file {
            Some(inside)
        } else {
            None
        },
    }
}

/// The settings that `theme` fills in, given what is configured.
pub open spec fn spec_theme_changes(theme: ThemePreset, i: ThemeInputs) -> ThemeChanges {
    match theme {
        ThemePreset::Modern => ThemeChanges {
            blur: if !i.blur_set && !i.blur_on_cli {
                Some((10u32, 3u32))
            } else {
                None
            },
            default_vignette: !i.vignette_set && !i.vignette_on_cli,
            pixelate: None,
            indicator_radius: if !i.radius_on_cli && !i.radius_in_file {
                Some(120u32)
            } else {
                None
            },
            ring_color: if !i.ring_on_cli && !i.ring_in_file {
                Some(ThemeColor::ModernRing)
            } else {
                None
            },
            inside_color: None,
        },
        ThemePreset::Pixel => ThemeChanges {
            blur: None,
            default_vignette: false,
            pixelate: if !i.pixelate_set && !i.pixelate_on_cli {
                Some(10u32)
            } else {
                None
            },
            indicator_radius: if !i.radius_on_cli && !i.radius_in_file {
                Some(80u32)
            } else {
                None
            },
            ring_color: if !i.ring_on_cli && !i.ring_in_file {
                Some(ThemeColor::PixelRing)
            } else {
                None
            },
            inside_color: None,
        },
        ThemePreset::Glass => ThemeChanges {
            blur: if !i.blur_set && !i.blur_on_cli {
                Some((20u32, 5u32))
            } else {
                None
            },
            default_vignette: false,
            pixelate: None,
            indicator_radius: None,
            ring_color: if !i.ring_on_cli && !i.ring_in_file {
                Some(ThemeColor::GlassRing)
            } else {
                None
            },
            inside_color: if !i.inside_on_cli && !i.inside_in_file {
                Some(ThemeColor::GlassInside)
            } else {
                None
            },
        },
        ThemePreset::Dark => palette_changes(ThemeColor::DarkRing, ThemeColor::DarkInside, i),
        ThemePreset::Light => palette_changes(ThemeColor::LightRing, ThemeColor::LightInside, i),
        ThemePreset::Nord => palette_changes(ThemeColor::NordRing, ThemeColor::NordInside, i),
        ThemePreset::Dracula => palette_changes(ThemeColor::DraculaRing, ThemeColor::DraculaInside, i),
    }
}

/// The settings that `theme` fills in, given what is configured.
pub fn theme_changes(theme: ThemePreset, inputs: ThemeInputs) -> (changes: ThemeChanges)
    ensures
        changes == spec_theme_changes(theme, inputs),
{
    let fresh_blur = !inputs.blur_set && !inputs.blur_on_cli;
    match theme {
        ThemePreset::Modern => ThemeChanges {
            blur: if fresh_blur {
                Some((10, 3))
            } else {
                None
            },
            default_vignette: !inputs.vignette_set && !inputs.vignette_on_cli,
            pixelate: None,
            indicator_radius: if !inputs.radius_on_cli && !inputs.radius_in_file {
                Some(120)
            } else {
                None
            },
            ring_color: if !inputs.ring_on_cli && !inputs.ring_in_file {
                Some(ThemeColor::ModernRing)
            } else {
                None
            },
            inside_color: None,
        },
        ThemePreset::Pixel => ThemeChanges {
            blur: None,
            default_vignette: false,
            pixelate: if !inputs.pixelate_set && !inputs.pixelate_on_cli {
                Some(10)
            } else {
                None
            },
            indicator_radius: if !inputs.radius_on_cli && !inputs.radius_in_file {
                Some(80)
            } else {
                None
            },
            ring_color: if !inputs.ring_on_cli && !inputs.ring_in_file {
                Some(ThemeColor::PixelRing)
            } else {
                None
            },
            inside_color: None,
        },
        ThemePreset::Glass => ThemeChanges {
            blur: if fresh_blur {
                Some((20, 5))
            } else {
                None
            },
            default_vignette: false,
            pixelate: None,
            indicator_radius: None,
            ring_color: if !inputs.ring_on_cli && !inputs.ring_in_file {
                Some(ThemeColor::GlassRing)
            } else {
                None
            },
            inside_color: if !inputs.inside_on_cli && !inputs.inside_in_file {
                Some(ThemeColor::GlassInside)
            } else {
                None
            },
        },
        ThemePreset::Dark => palette(ThemeColor::DarkRing, ThemeColor::DarkInside, inputs),
        ThemePreset::Light => palette(ThemeColor::LightRing, ThemeColor::LightInside, inputs),
        ThemePreset::Nord => palette(ThemeColor::NordRing, ThemeColor::NordInside, inputs),
        ThemePreset::Dracula => palette(ThemeColor::DraculaRing, ThemeColor::DraculaInside, inputs),
    }
}

/// A preset never overrides a setting given on the command line or in the
/// configuration file, and never replaces an effect that is already
/// configured.
pub proof fn lemma_theme_keeps_user_settings(theme: ThemePreset, inputs: ThemeInputs)
    ensures
        (inputs.blur_on_cli || inputs.blur_set) ==> spec_theme_changes(theme, inputs).blur is None,
        (inputs.vignette_on_cli || inputs.vignette_set) ==> !spec_theme_changes(
            theme,
            inputs,
        ).default_vignette,
        (inputs.pixelate_on_cli || inputs.pixelate_set) ==> spec_theme_changes(
            theme,
            inputs,
        ).pixelate is None,
        (inputs.radius_on_cli || inputs.radius_in_file) ==> spec_theme_changes(
            theme,
            inputs,
        ).indicator_radius is None,
        (inputs.ring_on_cli || inputs.ring_in_file) ==> spec_theme_changes(
            theme,
            inputs,
        ).ring_color is None,
        (inputs.inside_on_cli || inputs.inside_in_file) ==> spec_theme_changes(
            theme,
            inputs,
        ).inside_color is None,
{
}

/// What each preset fills in. Only `modern` turns on the default vignette,
/// only `pixel` pixelates, only `modern` and `glass` blur, only `modern` and
/// `pixel` size the indicator, and `modern` and `pixel` leave the inside
/// colour alone. A setting that nobody configured is filled: blur 10x3 for
/// `modern` and 20x5 for `glass`, the vignette for `modern`, pixel size 10
/// for `pixel`, radius 120 for `modern` and 80 for `pixel`, the ring colour
/// for every preset and the inside colour for every preset but `modern` and
/// `pixel`.
pub proof fn lemma_theme_fills_only_its_settings(theme: ThemePreset, inputs: ThemeInputs)
    ensures
        ({
            let c = spec_theme_changes(theme, inputs);
            let blur_free = !inputs.blur_set && !inputs.blur_on_cli;
            let radius_free = !inputs.radius_on_cli && !inputs.radius_in_file;
            &&& theme != ThemePreset::Modern ==> !c.default_vignette
            &&& theme != ThemePreset::Pixel ==> c.pixelate is None
            &&& theme != ThemePreset::Modern && theme != ThemePreset::Glass ==> c.blur is None
            &&& theme != ThemePreset::Modern && theme != ThemePreset::Pixel
                ==> c.indicator_radius is None
            &&& theme == ThemePreset::Modern || theme == ThemePreset::Pixel ==> c.inside_color is None
            &&& theme == ThemePreset::Modern && blur_free ==> c.blur == Some((10u32, 3u32))
            &&& theme == ThemePreset::Glass && blur_free ==> c.blur == Some((20u32, 5u32))
            &&& theme == ThemePreset::Modern && !inputs.vignette_set && !inputs.vignette_on_cli
                ==> c.default_vignette
            &&& theme == ThemePreset::Pixel && !inputs.pixelate_set && !inputs.pixelate_on_cli
                ==> c.pixelate == Some(10u32)
            &&& theme == ThemePreset::Modern && radius_free ==> c.indicator_radius == Some(120u32)
            &&& theme == ThemePreset::Pixel && radius_free ==> c.indicator_radius == Some(80u32)
            &&& !inputs.ring_on_cli && !inputs.ring_in_file ==> c.ring_color is Some
            &&& theme != ThemePreset::Modern && theme != ThemePreset::Pixel && !inputs.inside_on_cli
                && !inputs.inside_in_file ==> c.inside_color is Some
        }),
{
}

} // verus!
