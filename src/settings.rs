use crate::image::Rgba;
use vstd::prelude::*;

verus! {

/// Default outline thickness, in texels.
pub const DEFAULT_THICKNESS: u32 = 2;

/// Default color-difference threshold: about 0.1 on a 0 to 1 scale.
pub const DEFAULT_EDGE_THRESHOLD: u8 = 26;

/// Default depth-difference threshold: about 0.1 of the depth range.
pub const DEFAULT_DEPTH_THRESHOLD: u16 = 6554;

/// Default target width, in pixels.
pub const DEFAULT_TEXTURE_WIDTH: u32 = 1920;

/// Default target height, in pixels.
pub const DEFAULT_TEXTURE_HEIGHT: u32 = 1080;

/// Per-view outline parameters, read-only while a view is processed.
#[derive(Clone, Copy, Debug, PartialEq, Eq, Structural)]
pub struct OutlineSettings {
    /// Texels within this distance of an edge take the outline color.
    pub outline_thickness: u32,
    /// Color blended over the outline; its alpha is the blend weight.
    pub outline_color: Rgba,
    /// A neighbour whose color differs by more than this in some channel
    /// (0 to 255 standing for 0 to 1) makes an edge.
    pub edge_threshold: u8,
    /// A neighbour whose depth differs by more than this makes an edge.
    pub depth_threshold: u16,
    /// Width of the target the settings were written for, in pixels.
    pub texture_width: u32,
    /// Height of the target the settings were written for, in pixels.
    pub texture_height: u32,
}

/// The default settings: a black, fully opaque outline two texels thick.
pub open spec fn default_settings() -> OutlineSettings {
    OutlineSettings {
        outline_thickness: DEFAULT_THICKNESS,
        outline_color: Rgba { r: 0, g: 0, b: 0, a: 255 },
        edge_threshold: DEFAULT_EDGE_THRESHOLD,
        depth_threshold: DEFAULT_DEPTH_THRESHOLD,
        texture_width: DEFAULT_TEXTURE_WIDTH,
        texture_height: DEFAULT_TEXTURE_HEIGHT,
    }
}

impl Default for OutlineSettings {
    fn default() -> (r: OutlineSettings)
        ensures
            r == default_settings(),
    {
        OutlineSettings {
            outline_thickness: DEFAULT_THICKNESS,
            outline_color: Rgba { r: 0, g: 0, b: 0, a: 255 },
            edge_threshold: DEFAULT_EDGE_THRESHOLD,
            depth_threshold: DEFAULT_DEPTH_THRESHOLD,
            texture_width: DEFAULT_TEXTURE_WIDTH,
            texture_height: DEFAULT_TEXTURE_HEIGHT,
        }
    }
}

impl OutlineSettings {
    /// The default settings.
    pub fn new() -> (r: OutlineSettings)
        ensures
            r == default_settings(),
    {
        OutlineSettings::default()
    }

    /// The same settings with another outline thickness.
    pub fn with_thickness(self, thickness: u32) -> (r: OutlineSettings)
        ensures
            r == (OutlineSettings { outline_thickness: thickness, ..self }),
    {
        let mut s = self;
        s.outline_thickness = thickness;
        s
    }

    /// The same settings with another outline color.
    pub fn with_color(self, color: Rgba) -> (r: OutlineSettings)
        ensures
            r == (OutlineSettings { outline_color: color, ..self }),
    {
        let mut s = self;
        s.outline_color = color;
        s
    }

    /// The same settings with another color-difference threshold.
    pub fn with_threshold(self, threshold: u8) -> (r: OutlineSettings)
        ensures
            r == (OutlineSettings { edge_threshold: threshold, ..self }),
    {
        let mut s = self;
        s.edge_threshold = threshold;
        s
    }
}

} // verus!
