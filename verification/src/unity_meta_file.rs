//! The parts of a Unity `.meta` file that describe how a texture is sliced.
use vstd::prelude::*;

verus! {

/// A whole `.meta` file; only the texture importer section matters here.
#[derive(Debug)]
pub struct UnityMetaFile {
    pub texture_importer: Option<TextureImporter>,
}

/// The `TextureImporter` section of a `.meta` file.
#[derive(Debug)]
pub struct TextureImporter {
    pub sprite_sheet: SpriteSheet,
}

/// The sprites that the Sprite Editor sliced out of a texture.
#[derive(Debug, Default)]
pub struct SpriteSheet {
    pub sprites: Vec<SpriteData>,
}

/// One sliced sprite: its name and its rectangle in Unity coordinates.
#[derive(Debug)]
pub struct SpriteData {
    pub name: String,
    pub rect: SpriteRect,
}

/// A sprite rectangle; Unity measures `y` upwards from the bottom edge.
#[derive(Debug, Clone, Copy, PartialEq, Eq)]
pub struct SpriteRect {
    pub x: u32,
    pub y: u32,
    pub width: u32,
    pub height: u32,
}

} // verus!
