//! Brush settings and the commands that a canvas accepts.
//!
//! Fractions (opacity, pressure, brush size, colour channels) are fixed-point
//! numbers in units of 1/65536, so that every pixel value is decided by exact
//! integer arithmetic.

use vstd::prelude::*;

verus! {

/// The fixed-point number one.
pub const ONE: u32 = 65536;

/// The smallest pressure a sample counts with: a tenth.
pub const MIN_PRESSURE: u32 = 6554;

/// The largest pressure a sample counts with: two.
pub const MAX_PRESSURE: u32 = 131072;

/// The kind of tool that a stroke is drawn with.
#[derive(Debug, Clone, Copy, PartialEq, Eq, Structural)]
pub enum BrushType {
    Pen,
    Brush,
    Eraser,
}

/// How colours of a layer or a stroke combine with what lies below.
#[derive(Debug, Clone, Copy, PartialEq, Eq, Structural)]
pub enum BlendMode {
    Normal,
    Multiply,
    Screen,
    Overlay,
}

impl BlendMode {
    /// The lower-case name of the mode.
    pub fn to_string(&self) -> (name: String)
        ensures
            name@ == match *self {
                BlendMode::Normal => "normal"@,
                BlendMode::Multiply => "multiply"@,
                BlendMode::Screen => "screen"@,
                BlendMode::Overlay => "overlay"@,
            },
    {
        match self {
            BlendMode::Normal => "normal".to_string(),
            BlendMode::Multiply => "multiply".to_string(),
            BlendMode::Screen => "screen".to_string(),
            BlendMode::Overlay => "overlay".to_string(),
        }
    }
}

/// A colour: red, green, blue and alpha, fixed-point; values above one count
/// as one.
#[derive(Debug, Clone, Copy, PartialEq, Eq, Structural)]
pub struct BrushColor {
    pub r: u32,
    pub g: u32,
    pub b: u32,
    pub a: u32,
}

/// The brush that strokes are drawn with.
#[derive(Debug, Clone, Copy, PartialEq, Eq, Structural)]
pub struct BrushSettings {
    /// Size in pixels, fixed-point: the radius of a stamp at pressure one.
    pub size: u32,
    /// Opacity, fixed-point; values above one count as one.
    pub opacity: u32,
    pub color: BrushColor,
    pub brush_type: BrushType,
    pub blend_mode: BlendMode,
}

impl Default for BrushSettings {
    /// A five-pixel opaque black pen.
    fn default() -> (brush: BrushSettings)
        ensures
            brush == (BrushSettings {
                size: 327680,
                opacity: ONE,
                color: (BrushColor { r: 0, g: 0, b: 0, a: ONE }),
                brush_type: BrushType::Pen,
                blend_mode: BlendMode::Normal,
            }),
    {
        BrushSettings {
            size: 327680,
            opacity: ONE,
            color: (BrushColor { r: 0, g: 0, b: 0, a: ONE }),
            brush_type: BrushType::Pen,
            blend_mode: BlendMode::Normal,
        }
    }
}

/// A command for the active canvas. Coordinates are pixels; pressure is
/// fixed-point.
#[derive(Debug, Clone, Copy, PartialEq, Eq, Structural)]
pub enum DrawCommand {
    BeginStroke { x: i32, y: i32, pressure: u32 },
    ContinueStroke { x: i32, y: i32, pressure: u32 },
    EndStroke,
    Clear,
    SetBrush(BrushSettings),
    SetActiveLayer(usize),
    CreateLayer,
    DeleteLayer(usize),
}

} // verus!
