//! Where each chunk's texture comes from.

use crate::geometry::{channel_byte, spec_channel_byte, Color};
use crate::material::Material;
use vstd::prelude::*;

verus! {

/// An 8-bit RGBA pixel.
#[derive(Clone, Copy, Debug, PartialEq, Eq, Structural)]
pub struct Rgba8 {
    pub r: u8,
    pub g: u8,
    pub b: u8,
    pub a: u8,
}

/// A chunk's texture: an image file to decode, or a single-pixel image.
#[derive(Debug, PartialEq, Eq)]
pub enum TextureSource {
    /// Image file, relative to the directory of the asset that names it.
    File(String),
    /// A 1×1 image holding this pixel.
    Solid(Rgba8),
}

/// The opaque pixel of a color, each channel scaled to 8 bits.
pub open spec fn spec_solid_pixel(c: Color) -> Rgba8 {
    Rgba8 {
        r: spec_channel_byte(c.r),
        g: spec_channel_byte(c.g),
        b: spec_channel_byte(c.b),
        a: 255,
    }
}

pub open spec fn spec_texture_for(m: Material) -> TextureSource {
    match m.texture_map {
        Some(path) => TextureSource::File(path),
        None => TextureSource::Solid(spec_solid_pixel(m.diffuse)),
    }
}

pub fn solid_pixel(c: Color) -> (p: Rgba8)
    ensures
        p == spec_solid_pixel(c),
{
    Rgba8 { r: channel_byte(c.r), g: channel_byte(c.g), b: channel_byte(c.b), a: 255 }
}

/// The material's texture map when it names one; otherwise a 1×1 image of
/// its diffuse color.
pub fn texture_for(m: &Material) -> (t: TextureSource)
    ensures
        t == spec_texture_for(*m),
{
    match &m.texture_map {
        Some(path) => TextureSource::File(path.clone()),
        None => TextureSource::Solid(solid_pixel(m.diffuse)),
    }
}

} // verus!
