//! Descriptions of renderer-facing resources: texture formats and filters,
//! text alignment, and the contract a loadable resource fulfils.

use vstd::prelude::*;

verus! {

/// The pixel format of a texture.
#[derive(Debug, Clone, Copy, Eq, PartialEq, Structural)]
pub enum TextureFormat {
    Rgba,
    Red,
    R8,
    Depth,
}

/// How a texture is sampled when scaled.
#[derive(Debug, Clone, Copy, Eq, PartialEq, Structural)]
pub enum TextureFilter {
    Linear,
    Nearest,
}

/// A combined vertical and horizontal text alignment.
#[derive(Debug, Clone, Copy, PartialEq, Eq, Structural, Hash)]
pub enum TextAlign {
    TopLeft,
    TopCenter,
    TopRight,
    MiddleLeft,
    Center,
    MiddleRight,
    BottomLeft,
    BottomCenter,
    BottomRight,
}

/// The horizontal component of a text alignment.
#[derive(Debug, Clone, Copy, PartialEq, Eq, Structural, Hash)]
pub enum HorizontalAlign {
    Left,
    Center,
    Right,
}

/// The vertical component of a text alignment.
#[derive(Debug, Clone, Copy, PartialEq, Eq, Structural, Hash)]
pub enum VerticalAlign {
    Top,
    Center,
    Bottom,
}

/// The vertical and horizontal components of a combined alignment.
pub open spec fn align_components(a: TextAlign) -> (VerticalAlign, HorizontalAlign) {
    match a {
        TextAlign::TopLeft => (VerticalAlign::Top, HorizontalAlign::Left),
        TextAlign::TopCenter => (VerticalAlign::Top, HorizontalAlign::Center),
        TextAlign::TopRight => (VerticalAlign::Top, HorizontalAlign::Right),
        TextAlign::MiddleLeft => (VerticalAlign::Center, HorizontalAlign::Left),
        TextAlign::Center => (VerticalAlign::Center, HorizontalAlign::Center),
        TextAlign::MiddleRight => (VerticalAlign::Center, HorizontalAlign::Right),
        TextAlign::BottomLeft => (VerticalAlign::Bottom, HorizontalAlign::Left),
        TextAlign::BottomCenter => (VerticalAlign::Bottom, HorizontalAlign::Center),
        TextAlign::BottomRight => (VerticalAlign::Bottom, HorizontalAlign::Right),
    }
}

impl TextAlign {
    /// Splits the combined alignment into its vertical and horizontal
    /// parts.
    pub fn get_align(&self) -> (r: (VerticalAlign, HorizontalAlign))
        ensures
            r == align_components(*self),
    {
        match self {
            TextAlign::TopLeft => (VerticalAlign::Top, HorizontalAlign::Left),
            TextAlign::TopCenter => (VerticalAlign::Top, HorizontalAlign::Center),
            TextAlign::TopRight => (VerticalAlign::Top, HorizontalAlign::Right),
            TextAlign::MiddleLeft => (VerticalAlign::Center, HorizontalAlign::Left),
            TextAlign::Center => (VerticalAlign::Center, HorizontalAlign::Center),
            TextAlign::MiddleRight => (VerticalAlign::Center, HorizontalAlign::Right),
            TextAlign::BottomLeft => (VerticalAlign::Bottom, HorizontalAlign::Left),
            TextAlign::BottomCenter => (VerticalAlign::Bottom, HorizontalAlign::Center),
            TextAlign::BottomRight => (VerticalAlign::Bottom, HorizontalAlign::Right),
        }
    }
}

/// An external resource the host's loader can fill: it is prepared empty
/// for a named file and later receives that file's raw bytes.
pub trait Resource<T>: Clone {
    /// Creates an empty resource ready to be loaded.
    fn prepare(app: &mut T, file: &str) -> Result<Self, String>;

    /// Parses byte data to fill the resource.
    fn set_data(&mut self, app: &mut T, data: Vec<u8>) -> Result<(), String>;
}

} // verus!
